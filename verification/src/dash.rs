//! Opening the dashboard: whole, or on one flow.

use vstd::prelude::*;
use crate::failure::Failure;
use crate::storage::retention::{
    manifest_views, InstalledRuntimeManifest, ManifestView, RuntimeConfig,
};
use crate::text::{
    chars_of, clone_opt, clone_texts, dec, ends_with, law_a_number_reads_as_written,
    lemma_dec_injective, occurs_at, opt_view, push_number, same, starts_with,
    text_of, texts,
};

verus! {

#[derive(Debug, Clone, Copy, PartialEq, Eq, Structural)]
pub enum ActiveTab {
    Home,
    Chat,
}

/// A flow that runs by itself, without the rest of the dashboard.
#[derive(Debug, Clone, Copy, PartialEq, Eq, Structural)]
pub enum Focus {
    Setup,
    Serve,
    Examine,
}

/// A row of the launcher.
#[derive(Debug, Clone, Copy, PartialEq, Eq, Structural)]
pub enum LauncherChoice {
    SetUp,
    Serve,
    Diagnose,
    Chat,
    OpenDashboard,
}

/// Where a row of the launcher leads.
#[derive(Debug, Clone, Copy, PartialEq, Eq, Structural)]
pub enum LauncherRoute {
    Focused(Focus),
    Chat,
    Dashboard,
}

pub open spec fn route_of(choice: LauncherChoice) -> LauncherRoute {
    match choice {
        LauncherChoice::SetUp => LauncherRoute::Focused(Focus::Setup),
        LauncherChoice::Serve => LauncherRoute::Focused(Focus::Serve),
        LauncherChoice::Diagnose => LauncherRoute::Focused(Focus::Examine),
        LauncherChoice::Chat => LauncherRoute::Chat,
        LauncherChoice::OpenDashboard => LauncherRoute::Dashboard,
    }
}

pub fn launcher_route(choice: LauncherChoice) -> (r: LauncherRoute)
    ensures
        r == route_of(choice),
{
    match choice {
        LauncherChoice::SetUp => LauncherRoute::Focused(Focus::Setup),
        LauncherChoice::Serve => LauncherRoute::Focused(Focus::Serve),
        LauncherChoice::Diagnose => LauncherRoute::Focused(Focus::Examine),
        LauncherChoice::Chat => LauncherRoute::Chat,
        LauncherChoice::OpenDashboard => LauncherRoute::Dashboard,
    }
}

// ---------------------------------------------------------------------------
// What is opened
// ---------------------------------------------------------------------------

/// How the dashboard is opened.
#[derive(Debug)]
pub struct Launch {
    pub initial_tab: ActiveTab,
    pub focus: Option<Focus>,
    /// A recorded session to show in place of live data.
    pub replay: Option<String>,
    pub chat_mock: bool,
}

pub struct LaunchView {
    pub initial_tab: ActiveTab,
    pub focus: Option<Focus>,
    pub replay: Option<Seq<char>>,
    pub chat_mock: bool,
}

impl View for Launch {
    type V = LaunchView;

    open spec fn view(&self) -> LaunchView {
        LaunchView {
            initial_tab: self.initial_tab,
            focus: self.focus,
            replay: opt_view(self.replay),
            chat_mock: self.chat_mock,
        }
    }
}

pub open spec fn whole(replay: Option<Seq<char>>, chat_mock: bool) -> LaunchView {
    LaunchView { initial_tab: ActiveTab::Home, focus: None, replay, chat_mock }
}

pub open spec fn focused(focus: Focus) -> LaunchView {
    LaunchView { initial_tab: ActiveTab::Home, focus: Some(focus), replay: None, chat_mock: false }
}

pub open spec fn chatting(chat_mock: bool) -> LaunchView {
    LaunchView { initial_tab: ActiveTab::Chat, focus: None, replay: None, chat_mock }
}

/// The whole dashboard, showing the demo session if one was made, else the
/// session asked for, if one was.
pub fn run(replay: Option<String>, demo: Option<String>, chat_mock: bool) -> (r: Launch)
    ensures
        r@ == whole(
            if demo is Some {
                opt_view(demo)
            } else {
                opt_view(replay)
            },
            chat_mock,
        ),
{
    let replay = match demo {
        Some(session) => Some(session),
        None => replay,
    };
    Launch { initial_tab: ActiveTab::Home, focus: None, replay, chat_mock }
}

/// One flow by itself.
pub fn run_focused(focus: Focus) -> (r: Launch)
    ensures
        r@ == focused(focus),
{
    Launch { initial_tab: ActiveTab::Home, focus: Some(focus), replay: None, chat_mock: false }
}

/// The whole dashboard, on its chat.
pub fn run_chat(chat_mock: bool) -> (r: Launch)
    ensures
        r@ == chatting(chat_mock),
{
    Launch { initial_tab: ActiveTab::Chat, focus: None, replay: None, chat_mock }
}

/// The flow that `rocm bootstrap setup` opens.
pub fn bootstrap_focus() -> (r: Focus)
    ensures
        r == Focus::Setup,
{
    Focus::Setup
}

/// The setup flow, as the launcher's first row opens it.
pub fn run_bootstrap() -> (r: Launch)
    ensures
        r@ == focused(Focus::Setup),
{
    run_focused(bootstrap_focus())
}

pub open spec fn launched(choice: LauncherChoice, chat_mock: bool) -> LaunchView {
    match route_of(choice) {
        LauncherRoute::Focused(focus) => focused(focus),
        LauncherRoute::Chat => chatting(chat_mock),
        LauncherRoute::Dashboard => whole(None, chat_mock),
    }
}

/// What the launcher opens next; nothing once it is left.
pub fn run_launcher(choice: Option<LauncherChoice>, chat_mock: bool) -> (r: Option<Launch>)
    ensures
        match choice {
            None => r is None,
            Some(c) => r matches Some(launch) && launch@ == launched(c, chat_mock),
        },
{
    match choice {
        None => None,
        Some(c) => Some(
            match launcher_route(c) {
                LauncherRoute::Focused(focus) => run_focused(focus),
                LauncherRoute::Chat => run_chat(chat_mock),
                LauncherRoute::Dashboard => run(None, None, chat_mock),
            },
        ),
    }
}

// ---------------------------------------------------------------------------
// What it is opened with
// ---------------------------------------------------------------------------

/// The first value that is there and not empty.
pub open spec fn first_given(values: Seq<Option<Seq<char>>>) -> Option<Seq<char>>
    decreases values.len(),
{
    if values.len() == 0 {
        None
    } else if values[0] matches Some(v) && v.len() > 0 {
        values[0]
    } else {
        first_given(values.subrange(1, values.len() as int))
    }
}

pub open spec fn env_values(values: Seq<Option<String>>) -> Seq<Option<Seq<char>>> {
    values.map_values(|v: Option<String>| opt_view(v))
}

/// The key of the chat, from the variables of the environment in their order of
/// precedence, and from nowhere else.
pub fn chat_api_key_from_env(values: &Vec<Option<String>>) -> (r: Option<String>)
    ensures
        opt_view(r) == first_given(env_values(values@)),
{
    let ghost all = env_values(values@);
    let mut i: usize = 0;
    assert(all.subrange(0, all.len() as int) =~= all);
    while i < values.len()
        invariant
            i <= values@.len(),
            all == env_values(values@),
            first_given(all) == first_given(all.subrange(i as int, all.len() as int)),
        decreases values@.len() - i,
    {
        let ghost rest = all.subrange(i as int, all.len() as int);
        assert(rest.subrange(1, rest.len() as int) =~= all.subrange(i + 1, all.len() as int));
        assert(rest[0] == opt_view(values@[i as int]));
        if let Some(v) = &values[i] {
            if chars_of(v.as_str()).len() > 0 {
                return Some(v.clone());
            }
        }
        i += 1;
    }
    None
}

/// A model recipe, as far as the picker shows it.
#[derive(Debug)]
pub struct ModelRecipe {
    pub canonical_model_id: String,
    pub aliases: Vec<String>,
    pub task: String,
    pub preferred_engines: Vec<String>,
}

#[derive(Debug)]
pub struct ModelRecipeSummary {
    pub id: String,
    pub aliases: Vec<String>,
    pub task: String,
    pub preferred_engine: Option<String>,
}

pub struct RecipeSummaryView {
    pub id: Seq<char>,
    pub aliases: Seq<Seq<char>>,
    pub task: Seq<char>,
    pub preferred_engine: Option<Seq<char>>,
}

impl View for ModelRecipeSummary {
    type V = RecipeSummaryView;

    open spec fn view(&self) -> RecipeSummaryView {
        RecipeSummaryView {
            id: self.id@,
            aliases: texts(self.aliases@),
            task: self.task@,
            preferred_engine: opt_view(self.preferred_engine),
        }
    }
}

pub open spec fn recipe_summary(r: ModelRecipe) -> RecipeSummaryView {
    RecipeSummaryView {
        id: r.canonical_model_id@,
        aliases: texts(r.aliases@),
        task: r.task@,
        preferred_engine: if r.preferred_engines@.len() == 0 {
            None
        } else {
            Some(r.preferred_engines@[0]@)
        },
    }
}

pub open spec fn recipe_views(s: Seq<ModelRecipeSummary>) -> Seq<RecipeSummaryView> {
    s.map_values(|r: ModelRecipeSummary| r@)
}

/// Every recipe with the first of the engines it prefers.
pub fn model_recipe_summaries(recipes: &Vec<ModelRecipe>) -> (r: Vec<ModelRecipeSummary>)
    ensures
        recipe_views(r@) == recipes@.map_values(|m: ModelRecipe| recipe_summary(m)),
{
    let mut out: Vec<ModelRecipeSummary> = Vec::new();
    let mut i: usize = 0;
    while i < recipes.len()
        invariant
            i <= recipes@.len(),
            recipe_views(out@) =~= recipes@.subrange(0, i as int).map_values(
                |m: ModelRecipe| recipe_summary(m),
            ),
        decreases recipes@.len() - i,
    {
        let ghost before = recipe_views(out@);
        let recipe = &recipes[i];
        let preferred_engine = if recipe.preferred_engines.len() == 0 {
            None
        } else {
            Some(recipe.preferred_engines[0].clone())
        };
        out.push(
            ModelRecipeSummary {
                id: recipe.canonical_model_id.clone(),
                aliases: clone_texts(&recipe.aliases),
                task: recipe.task.clone(),
                preferred_engine,
            },
        );
        assert(recipe_views(out@) =~= before.push(recipe_summary(recipes@[i as int])));
        i += 1;
    }
    assert(recipes@.subrange(0, recipes@.len() as int) =~= recipes@);
    out
}

/// An install, as the runtime manager shows it.
#[derive(Debug)]
pub struct RuntimeSummary {
    pub key: String,
    pub id: String,
    pub channel: String,
    pub version: String,
    pub root: String,
    pub active: bool,
    pub rollback: bool,
}

pub struct RuntimeSummaryView {
    pub key: Seq<char>,
    pub id: Seq<char>,
    pub channel: Seq<char>,
    pub version: Seq<char>,
    pub root: Seq<char>,
    pub active: bool,
    pub rollback: bool,
}

impl View for RuntimeSummary {
    type V = RuntimeSummaryView;

    open spec fn view(&self) -> RuntimeSummaryView {
        RuntimeSummaryView {
            key: self.key@,
            id: self.id@,
            channel: self.channel@,
            version: self.version@,
            root: self.root@,
            active: self.active,
            rollback: self.rollback,
        }
    }
}

pub open spec fn summary_views(s: Seq<RuntimeSummary>) -> Seq<RuntimeSummaryView> {
    s.map_values(|r: RuntimeSummary| r@)
}

/// The keys of the installs with the default's id.
pub open spec fn default_keys(all: Seq<ManifestView>, default_id: Option<Seq<char>>) -> Seq<
    Seq<char>,
>
    decreases all.len(),
{
    if all.len() == 0 {
        seq![]
    } else {
        let before = default_keys(all.drop_last(), default_id);
        if default_id == Some(all.last().runtime_id) {
            before.push(all.last().runtime_key)
        } else {
            before
        }
    }
}

/// The key of the install in use: the one configured, else the only one with the
/// default's id.
pub open spec fn active_key(all: Seq<ManifestView>, config: RuntimeConfig) -> Option<Seq<char>> {
    if config.active_runtime_key is Some {
        opt_view(config.active_runtime_key)
    } else {
        let keys = default_keys(all, opt_view(config.default_runtime_id));
        if keys.len() == 1 {
            Some(keys[0])
        } else {
            None
        }
    }
}

pub open spec fn runtime_summary(
    m: ManifestView,
    active: Option<Seq<char>>,
    previous: Option<Seq<char>>,
) -> RuntimeSummaryView {
    RuntimeSummaryView {
        key: m.runtime_key,
        id: m.runtime_id,
        channel: m.channel,
        version: m.version,
        root: m.install_root,
        active: active == Some(m.runtime_key),
        rollback: previous == Some(m.runtime_key),
    }
}

pub open spec fn summaries_of(all: Seq<ManifestView>, config: RuntimeConfig) -> Seq<
    RuntimeSummaryView,
> {
    let active = active_key(all, config);
    all.map_values(
        |m: ManifestView| runtime_summary(m, active, opt_view(config.previous_runtime_key)),
    )
}

fn is_some_text(value: &Option<String>, text: &str) -> (r: bool)
    ensures
        r == (opt_view(*value) == Some(text@)),
{
    match value {
        Some(v) => same(v.as_str(), text),
        None => false,
    }
}

fn find_active(manifests: &Vec<InstalledRuntimeManifest>, config: &RuntimeConfig) -> (r: Option<
    String,
>)
    ensures
        opt_view(r) == active_key(manifest_views(manifests@), *config),
{
    if config.active_runtime_key.is_some() {
        return clone_opt(&config.active_runtime_key);
    }
    let ghost all = manifest_views(manifests@);
    let ghost id = opt_view(config.default_runtime_id);
    let mut keys: Vec<String> = Vec::new();
    let mut i: usize = 0;
    assert(all.subrange(0, 0) =~= seq![]);
    assert(texts(keys@) =~= seq![]);
    while i < manifests.len()
        invariant
            i <= manifests@.len(),
            all == manifest_views(manifests@),
            id == opt_view(config.default_runtime_id),
            texts(keys@) == default_keys(all.subrange(0, i as int), id),
        decreases manifests@.len() - i,
    {
        assert(all.subrange(0, i + 1).drop_last() =~= all.subrange(0, i as int));
        let m = &manifests[i];
        assert(all[i as int] == m@);
        if is_some_text(&config.default_runtime_id, m.runtime_id.as_str()) {
            let ghost before = texts(keys@);
            keys.push(m.runtime_key.clone());
            assert(texts(keys@) =~= before.push(m@.runtime_key));
        }
        i += 1;
    }
    assert(all.subrange(0, all.len() as int) =~= all);
    if keys.len() == 1 {
        assert(texts(keys@)[0] == keys@[0]@);
        return Some(keys[0].clone());
    }
    None
}

/// The installs, with the one in use and the one to go back to. Where they could
/// not be read there are none to show.
pub fn runtime_summaries(
    manifests: &Result<Vec<InstalledRuntimeManifest>, Failure>,
    config: &RuntimeConfig,
) -> (r: Vec<RuntimeSummary>)
    ensures
        summary_views(r@) == match *manifests {
            Ok(list) => summaries_of(manifest_views(list@), *config),
            Err(failure) => seq![],
        },
{
    let mut out: Vec<RuntimeSummary> = Vec::new();
    assert(summary_views(out@) =~= seq![]);
    let list = match manifests {
        Ok(list) => list,
        Err(_) => {
            return out;
        },
    };
    let active = find_active(list, config);
    let ghost all = manifest_views(list@);
    let mut i: usize = 0;
    while i < list.len()
        invariant
            i <= list@.len(),
            all == manifest_views(list@),
            opt_view(active) == active_key(all, *config),
            summary_views(out@) == summaries_of(all, *config).subrange(0, i as int),
        decreases list@.len() - i,
    {
        let m = &list[i];
        assert(all[i as int] == m@);
        let ghost before = summary_views(out@);
        out.push(
            RuntimeSummary {
                key: m.runtime_key.clone(),
                id: m.runtime_id.clone(),
                channel: m.channel.clone(),
                version: m.version.clone(),
                root: m.install_root.clone(),
                active: is_some_text(&active, m.runtime_key.as_str()),
                rollback: is_some_text(&config.previous_runtime_key, m.runtime_key.as_str()),
            },
        );
        assert(summary_views(out@) =~= before.push(summaries_of(all, *config)[i as int]));
        assert(summaries_of(all, *config).subrange(0, i + 1) =~= summaries_of(
            all,
            *config,
        ).subrange(0, i as int).push(summaries_of(all, *config)[i as int]));
        i += 1;
    }
    assert(summaries_of(all, *config).subrange(0, all.len() as int) =~= summaries_of(all, *config));
    out
}

/// A background check, as the automations manager shows it.
#[derive(Debug)]
pub struct AutomationSummary {
    pub id: String,
    pub summary: String,
    pub enabled: bool,
    pub mode: String,
}

/// The dashboard's part of the configuration.
#[derive(Debug)]
pub struct DashConfig {
    pub connect: String,
    pub token: Option<String>,
    pub theme: String,
    pub chat_url: Option<String>,
    pub chat_model: Option<String>,
    pub chat_auth_header: Option<String>,
}

/// What the dashboard takes from the environment.
#[derive(Debug)]
pub struct DashEnv {
    pub openai_base_url: Option<String>,
    /// The chat keys in their order of precedence.
    pub chat_api_keys: Vec<Option<String>>,
    /// The key of the other provider, or why there is none.
    pub anthropic_api_key: Result<String, Failure>,
}

/// What the dashboard is opened with.
#[derive(Debug)]
pub struct ResolvedArgs {
    pub connect: String,
    pub token: Option<String>,
    pub theme: String,
    pub replay: Option<String>,
    pub initial_tab: ActiveTab,
    pub focus: Option<Focus>,
    pub chat_url: Option<String>,
    pub chat_model: Option<String>,
    pub chat_auth_header: Option<String>,
    pub chat_env_url: Option<String>,
    pub chat_api_key: Option<String>,
    pub anthropic_api_key: Option<String>,
    pub chat_auto_consent: bool,
    pub chat_mock: bool,
    /// Tools can be run from the dashboard.
    pub with_tools: bool,
    pub model_recipes: Vec<ModelRecipeSummary>,
    pub runtimes: Vec<RuntimeSummary>,
    pub automations: Vec<AutomationSummary>,
}

pub struct ArgsView {
    pub connect: Seq<char>,
    pub token: Option<Seq<char>>,
    pub theme: Seq<char>,
    pub replay: Option<Seq<char>>,
    pub initial_tab: ActiveTab,
    pub focus: Option<Focus>,
    pub chat_url: Option<Seq<char>>,
    pub chat_model: Option<Seq<char>>,
    pub chat_auth_header: Option<Seq<char>>,
    pub chat_env_url: Option<Seq<char>>,
    pub chat_api_key: Option<Seq<char>>,
    pub anthropic_api_key: Option<Seq<char>>,
    pub chat_auto_consent: bool,
    pub chat_mock: bool,
    pub with_tools: bool,
    pub model_recipes: Seq<RecipeSummaryView>,
    pub runtimes: Seq<RuntimeSummaryView>,
    pub automations: Seq<AutomationSummary>,
}

impl View for ResolvedArgs {
    type V = ArgsView;

    open spec fn view(&self) -> ArgsView {
        ArgsView {
            connect: self.connect@,
            token: opt_view(self.token),
            theme: self.theme@,
            replay: opt_view(self.replay),
            initial_tab: self.initial_tab,
            focus: self.focus,
            chat_url: opt_view(self.chat_url),
            chat_model: opt_view(self.chat_model),
            chat_auth_header: opt_view(self.chat_auth_header),
            chat_env_url: opt_view(self.chat_env_url),
            chat_api_key: opt_view(self.chat_api_key),
            anthropic_api_key: opt_view(self.anthropic_api_key),
            chat_auto_consent: self.chat_auto_consent,
            chat_mock: self.chat_mock,
            with_tools: self.with_tools,
            model_recipes: recipe_views(self.model_recipes@),
            runtimes: summary_views(self.runtimes@),
            automations: self.automations@,
        }
    }
}

pub open spec fn args_of(
    config: DashConfig,
    env: DashEnv,
    model_recipes: Seq<RecipeSummaryView>,
    runtimes: Seq<RuntimeSummaryView>,
    automations: Seq<AutomationSummary>,
    initial_tab: ActiveTab,
) -> ArgsView {
    ArgsView {
        connect: config.connect@,
        token: opt_view(config.token),
        theme: config.theme@,
        replay: None,
        initial_tab,
        focus: None,
        chat_url: opt_view(config.chat_url),
        chat_model: opt_view(config.chat_model),
        chat_auth_header: opt_view(config.chat_auth_header),
        chat_env_url: first_given(seq![opt_view(env.openai_base_url)]),
        chat_api_key: first_given(env_values(env.chat_api_keys@)),
        anthropic_api_key: match env.anthropic_api_key {
            Ok(key) => Some(key@),
            Err(failure) => None,
        },
        chat_auto_consent: false,
        chat_mock: false,
        with_tools: false,
        model_recipes,
        runtimes,
        automations,
    }
}

/// Puts together what the dashboard is opened with, before it is said how.
pub fn resolved_args(
    config: &DashConfig,
    env: &DashEnv,
    model_recipes: Vec<ModelRecipeSummary>,
    runtimes: Vec<RuntimeSummary>,
    automations: Vec<AutomationSummary>,
    initial_tab: ActiveTab,
) -> (r: ResolvedArgs)
    ensures
        r@ == args_of(
            *config,
            *env,
            recipe_views(model_recipes@),
            summary_views(runtimes@),
            automations@,
            initial_tab,
        ),
{
    let mut base_url: Vec<Option<String>> = Vec::new();
    base_url.push(clone_opt(&env.openai_base_url));
    assert(env_values(base_url@) =~= seq![opt_view(env.openai_base_url)]);
    let anthropic_api_key = match &env.anthropic_api_key {
        Ok(key) => Some(key.clone()),
        Err(_) => None,
    };
    ResolvedArgs {
        connect: config.connect.clone(),
        token: clone_opt(&config.token),
        theme: config.theme.clone(),
        replay: None,
        initial_tab,
        focus: None,
        chat_url: clone_opt(&config.chat_url),
        chat_model: clone_opt(&config.chat_model),
        chat_auth_header: clone_opt(&config.chat_auth_header),
        chat_env_url: chat_api_key_from_env(&base_url),
        chat_api_key: chat_api_key_from_env(&env.chat_api_keys),
        anthropic_api_key,
        chat_auto_consent: false,
        chat_mock: false,
        with_tools: false,
        model_recipes,
        runtimes,
        automations,
    }
}

/// Applies how the dashboard is opened. Only a live one can run tools: neither a
/// recorded session nor the mock chat can.
pub open spec fn prepared(args: ArgsView, launch: LaunchView) -> ArgsView {
    ArgsView {
        initial_tab: launch.initial_tab,
        focus: launch.focus,
        replay: launch.replay,
        chat_mock: launch.chat_mock,
        with_tools: args.with_tools || (!launch.chat_mock && launch.replay is None),
        ..args
    }
}

pub fn prepare(args: ResolvedArgs, launch: Launch) -> (r: ResolvedArgs)
    ensures
        r@ == prepared(args@, launch@),
{
    let live = !launch.chat_mock && launch.replay.is_none();
    let mut args = args;
    args.initial_tab = launch.initial_tab;
    args.focus = launch.focus;
    args.replay = launch.replay;
    args.chat_mock = launch.chat_mock;
    if live {
        args.with_tools = true;
    }
    args
}

/// Whether the telemetry daemon is started: for a live and whole dashboard only.
pub open spec fn spawns_daemon(args: ArgsView) -> bool {
    args.replay is None && args.focus is None
}

pub fn should_spawn_daemon(args: &ResolvedArgs) -> (r: bool)
    ensures
        r == spawns_daemon(args@),
{
    args.replay.is_none() && args.focus.is_none()
}

// ---------------------------------------------------------------------------
// Sockets and sessions
// ---------------------------------------------------------------------------

/// The local socket that an address names, if it names one. Only a daemon on such
/// a socket is started by the dashboard.
pub open spec fn socket_of(connect: Seq<char>) -> Option<Seq<char>> {
    if occurs_at(connect, "unix:"@, 0) {
        Some(connect.subrange("unix:"@.len() as int, connect.len() as int))
    } else {
        None
    }
}

pub fn local_socket(connect: &str) -> (r: Option<String>)
    ensures
        opt_view(r) == socket_of(connect@),
{
    if !starts_with(connect, "unix:") {
        return None;
    }
    let chars = chars_of(connect);
    let prefix: usize = chars_of("unix:").len();
    let to: usize = chars.len();
    Some(text_of(&chars, prefix, to))
}

/// Whether a file is a demo session: its name has the extension, and something
/// before it.
pub open spec fn is_demo_file(name: Seq<char>) -> bool {
    let ext = ".ndjson"@;
    name.len() > ext.len() && occurs_at(name, ext, name.len() - ext.len())
}

pub fn is_demo_session(name: &str) -> (r: bool)
    ensures
        r == is_demo_file(name@),
{
    let chars = chars_of(name);
    let ext = chars_of(".ndjson");
    if chars.len() <= ext.len() {
        return false;
    }
    let tail = text_of(&chars, chars.len() - ext.len(), chars.len());
    same(tail.as_str(), ".ndjson")
}

/// The name of the demo session that a process makes at a time.
pub open spec fn demo_name(pid: nat, now: nat) -> Seq<char> {
    "session-"@ + dec(pid) + "-"@ + dec(now) + ".ndjson"@
}

pub fn demo_session_name(pid: u32, now_unix_ms: u128) -> (r: String)
    ensures
        r@ == demo_name(pid as nat, now_unix_ms as nat),
{
    let mut name = "session-".to_owned();
    push_number(&mut name, pid as u128);
    name.push_str("-");
    push_number(&mut name, now_unix_ms);
    name.push_str(".ndjson");
    name
}

// ---------------------------------------------------------------------------
// Laws
// ---------------------------------------------------------------------------

/// `rocm bootstrap setup` opens what the launcher's first row opens.
pub proof fn law_bootstrap_is_the_launchers_setup(chat_mock: bool)
    ensures
        launched(LauncherChoice::SetUp, chat_mock) == focused(Focus::Setup),
{
}

/// A flow by itself never has the daemon started, and of the launcher's rows
/// exactly those that open the whole dashboard do.
pub proof fn law_a_single_flow_needs_no_daemon(
    args: ArgsView,
    focus: Focus,
    choice: LauncherChoice,
    chat_mock: bool,
)
    ensures
        !spawns_daemon(prepared(args, focused(focus))),
        spawns_daemon(prepared(args, launched(choice, chat_mock))) <==> choice is Chat
            || choice is OpenDashboard,
{
}

/// Where nothing is configured as in use, and it is not one install alone that
/// has the default's id, no install is shown as in use.
pub proof fn law_an_ambiguous_default_is_not_in_use(all: Seq<ManifestView>, config: RuntimeConfig)
    requires
        config.active_runtime_key is None,
        default_keys(all, opt_view(config.default_runtime_id)).len() != 1,
    ensures
        forall|i: int|
            0 <= i < all.len() ==> !(#[trigger] summaries_of(all, config)[i]).active,
{
}

/// A demo session that was made is one that the next demo removes.
pub proof fn law_demo_sessions_are_removed_later(pid: nat, now: nat)
    ensures
        is_demo_file(demo_name(pid, now)),
{
    reveal_strlit("session-");
    let head = "session-"@ + dec(pid) + "-"@ + dec(now);
    let ext = ".ndjson"@;
    let name = demo_name(pid, now);
    assert(name.subrange(name.len() - ext.len(), name.len() as int) =~= ext);
    assert(head.len() > 0);
}

/// Each row of the launcher opens its own: the first three one flow each, by itself and
/// live; the chat the whole dashboard on its chat; and the last the whole dashboard at
/// home. None of them shows a recorded session.
pub proof fn law_each_row_opens_its_own(choice: LauncherChoice, chat_mock: bool)
    ensures
        ({
            let opened = launched(choice, chat_mock);
            &&& opened.replay is None
            &&& opened.focus == match choice {
                LauncherChoice::SetUp => Some(Focus::Setup),
                LauncherChoice::Serve => Some(Focus::Serve),
                LauncherChoice::Diagnose => Some(Focus::Examine),
                _ => None,
            }
            &&& opened.initial_tab is Chat <==> choice is Chat
            &&& opened.chat_mock <==> chat_mock && opened.focus is None
        }),
{
}

/// The first variable that is set to anything is the one that counts, and none does where
/// none is.
pub proof fn law_the_first_variable_set_counts(values: Seq<Option<Seq<char>>>, k: int)
    requires
        0 <= k <= values.len(),
        forall|i: int|
            0 <= i < k ==> (#[trigger] values[i]) is None || values[i]->0.len() == 0,
        k < values.len() ==> values[k] is Some && values[k]->0.len() > 0,
    ensures
        first_given(values) == (if k < values.len() {
            values[k]
        } else {
            None
        }),
    decreases k,
{
    if k > 0 {
        assert(values[0] is None || values[0]->0.len() == 0);
        let rest = values.subrange(1, values.len() as int);
        assert forall|i: int| 0 <= i < k - 1 implies (#[trigger] rest[i]) is None
            || rest[i]->0.len() == 0 by {
            assert(rest[i] == values[i + 1]);
        }
        law_the_first_variable_set_counts(rest, k - 1);
    }
}

/// A recipe is shown by its own name, with its aliases and its task, and with the engine
/// that it prefers to all others, if it prefers any.
pub proof fn law_a_recipe_is_shown_with_the_engine_it_prefers(r: ModelRecipe)
    ensures
        ({
            let shown = recipe_summary(r);
            &&& shown.id == r.canonical_model_id@
            &&& shown.aliases == texts(r.aliases@)
            &&& shown.task == r.task@
            &&& shown.preferred_engine is Some <==> r.preferred_engines@.len() > 0
            &&& shown.preferred_engine matches Some(e) ==> e == r.preferred_engines@.first()@
        }),
{
}

proof fn lemma_default_keys(all: Seq<ManifestView>, id: Option<Seq<char>>)
    ensures
        default_keys(all, id) == all.filter(|m: ManifestView| id == Some(m.runtime_id)).map_values(
            |m: ManifestView| m.runtime_key,
        ),
    decreases all.len(),
{
    reveal(Seq::filter);
    let p = |m: ManifestView| id == Some(m.runtime_id);
    let f = |m: ManifestView| m.runtime_key;
    if all.len() > 0 {
        let front = all.drop_last();
        lemma_default_keys(front, id);
        if p(all.last()) {
            assert(all.filter(p).map_values(f) =~= front.filter(p).map_values(f).push(
                f(all.last()),
            ));
        }
    } else {
        assert(all.filter(p).map_values(f) =~= seq![]);
    }
}

/// Every install is shown as it is recorded. It is shown as in use exactly where its key
/// is the one configured, or, where none is, where it has the key of the one install with
/// the default's id; and as the one to go back to exactly where its key is the one of
/// before.
pub proof fn law_an_install_is_shown_as_recorded(
    all: Seq<ManifestView>,
    config: RuntimeConfig,
    i: int,
)
    requires
        0 <= i < all.len(),
    ensures
        ({
            let shown = summaries_of(all, config);
            let m = all[i];
            let by_default = all.filter(
                |o: ManifestView| opt_view(config.default_runtime_id) == Some(o.runtime_id),
            );
            &&& shown.len() == all.len()
            &&& shown[i].key == m.runtime_key
            &&& shown[i].id == m.runtime_id
            &&& shown[i].channel == m.channel
            &&& shown[i].version == m.version
            &&& shown[i].root == m.install_root
            &&& shown[i].active <==> match config.active_runtime_key {
                Some(key) => m.runtime_key == key@,
                None => by_default.len() == 1 && m.runtime_key == by_default[0].runtime_key,
            }
            &&& shown[i].rollback <==> (config.previous_runtime_key matches Some(key)
                && m.runtime_key == key@)
        }),
{
    lemma_default_keys(all, opt_view(config.default_runtime_id));
}

/// Each setting reaches its own place: what is configured, what the environment holds,
/// and what is shown; and nothing is opened, mocked or allowed before it is said how.
pub proof fn law_each_setting_reaches_its_own_place(
    config: DashConfig,
    env: DashEnv,
    model_recipes: Seq<RecipeSummaryView>,
    runtimes: Seq<RuntimeSummaryView>,
    automations: Seq<AutomationSummary>,
    initial_tab: ActiveTab,
)
    ensures
        ({
            let args = args_of(config, env, model_recipes, runtimes, automations, initial_tab);
            &&& args.connect == config.connect@ && args.theme == config.theme@
            &&& args.token == opt_view(config.token)
            &&& args.chat_url == opt_view(config.chat_url)
            &&& args.chat_model == opt_view(config.chat_model)
            &&& args.chat_auth_header == opt_view(config.chat_auth_header)
            &&& args.chat_env_url is Some <==> env.openai_base_url is Some
                && env.openai_base_url->0@.len() > 0
            &&& args.chat_env_url matches Some(url) ==> url == env.openai_base_url->0@
            &&& args.chat_api_key == first_given(env_values(env.chat_api_keys@))
            &&& args.anthropic_api_key is Some <==> env.anthropic_api_key is Ok
            &&& args.anthropic_api_key matches Some(key) ==> key == env.anthropic_api_key->Ok_0@
            &&& args.model_recipes == model_recipes && args.runtimes == runtimes
                && args.automations == automations && args.initial_tab == initial_tab
            &&& args.replay is None && args.focus is None
            &&& !args.chat_auto_consent && !args.chat_mock && !args.with_tools
        }),
{
    reveal_with_fuel(first_given, 2);
}

/// Opening the dashboard settles how it is opened and leaves all else as it was. Tools
/// are at hand where they were already, or where it shows neither a recorded session nor
/// the mock chat.
pub proof fn law_opening_settles_only_how(args: ArgsView, launch: LaunchView)
    ensures
        ({
            let r = prepared(args, launch);
            &&& r.initial_tab == launch.initial_tab && r.focus == launch.focus && r.replay
                == launch.replay && r.chat_mock == launch.chat_mock
            &&& r.with_tools <==> args.with_tools || (launch.replay is None && !launch.chat_mock)
            &&& r == (ArgsView {
                initial_tab: r.initial_tab,
                focus: r.focus,
                replay: r.replay,
                chat_mock: r.chat_mock,
                with_tools: r.with_tools,
                ..args
            })
            &&& spawns_daemon(r) <==> launch.replay is None && launch.focus is None
        }),
{
}

/// An address names a local socket exactly where it says so in front, and the socket is
/// all that stands behind; and a demo session is told by what its name ends with.
pub proof fn law_a_socket_and_a_session_are_told_by_their_names(
    connect: Seq<char>,
    path: Seq<char>,
    stem: Seq<char>,
    name: Seq<char>,
)
    ensures
        socket_of("unix:"@ + path) == Some(path),
        !occurs_at(connect, "unix:"@, 0) ==> socket_of(connect) is None,
        is_demo_file(stem + ".ndjson"@) <==> stem.len() > 0,
        !ends_with(name, ".ndjson"@) ==> !is_demo_file(name),
{
    reveal_strlit("unix:");
    reveal_strlit(".ndjson");
    let all = "unix:"@ + path;
    assert(all.subrange(0, 5) =~= "unix:"@);
    assert(all.subrange(5, all.len() as int) =~= path);
    let file = stem + ".ndjson"@;
    assert(file.subrange(file.len() - 7, file.len() as int) =~= ".ndjson"@);
}

/// No two demo sessions share a name: it tells the process and the time apart.
pub proof fn law_each_demo_session_has_its_own_name(pid: nat, now: nat, pid2: nat, now2: nat)
    requires
        demo_name(pid, now) == demo_name(pid2, now2),
    ensures
        pid == pid2,
        now == now2,
{
    reveal_strlit("-");
    law_a_number_reads_as_written(pid);
    law_a_number_reads_as_written(pid2);
    let (a, b, c, d) = (dec(pid), dec(now), dec(pid2), dec(now2));
    let n = "session-"@.len() as int;
    let x = demo_name(pid, now);
    let e = ".ndjson"@.len() as int;
    assert(x[n + a.len()] == '-');
    assert(x[n + c.len()] == '-');
    if a.len() < c.len() {
        assert(x[n + a.len()] == c[a.len() as int]);
    }
    if c.len() < a.len() {
        assert(x[n + c.len()] == a[c.len() as int]);
    }
    assert(x.subrange(n, n + a.len()) =~= a);
    assert(x.subrange(n, n + a.len()) =~= c);
    assert(x.subrange(n + a.len() + 1, x.len() - e) =~= b);
    assert(x.subrange(n + a.len() + 1, x.len() - e) =~= d);
    lemma_dec_injective(pid, pid2);
    lemma_dec_injective(now, now2);
}

} // verus!
