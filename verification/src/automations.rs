//! Switching background watchers on and off.

use vstd::prelude::*;
use crate::failure::{plain, told, Failure};
use crate::text::{clone_opt, has_text, lemma_has_text, opt_text, opt_view, same};

verus! {

/// What the configuration says of a watcher.
#[derive(Debug)]
pub struct WatcherSetting {
    pub id: String,
    pub enabled: bool,
    pub mode: Option<String>,
}

pub struct SettingView {
    pub id: Seq<char>,
    pub enabled: bool,
    pub mode: Option<Seq<char>>,
}

impl View for WatcherSetting {
    type V = SettingView;

    open spec fn view(&self) -> SettingView {
        SettingView { id: self.id@, enabled: self.enabled, mode: opt_view(self.mode) }
    }
}

pub open spec fn setting_views(s: Seq<WatcherSetting>) -> Seq<SettingView> {
    s.map_values(|w: WatcherSetting| w@)
}

/// The part of the configuration that watchers are in.
#[derive(Debug)]
pub struct AutomationsConfig {
    pub watchers: Vec<WatcherSetting>,
    pub daemon_enabled: bool,
}

pub struct AutomationsView {
    pub watchers: Seq<SettingView>,
    pub daemon_enabled: bool,
}

impl View for AutomationsConfig {
    type V = AutomationsView;

    open spec fn view(&self) -> AutomationsView {
        AutomationsView {
            watchers: setting_views(self.watchers@),
            daemon_enabled: self.daemon_enabled,
        }
    }
}

/// A watcher that comes with the tool, as far as it is told about.
#[derive(Debug)]
pub struct Watcher {
    pub id: String,
    pub trigger: String,
    /// What the policy says of it, if anything.
    pub policy: Option<String>,
}

/// The place of a watcher's setting from `from` on, if it has one.
pub open spec fn place_of(s: Seq<SettingView>, id: Seq<char>, from: int) -> Option<int>
    decreases s.len() - from,
{
    if from >= s.len() {
        None
    } else if s[from].id == id {
        Some(from)
    } else {
        place_of(s, id, from + 1)
    }
}

/// The settings with a setting for the watcher: a watcher that has none gets one
/// that is off.
pub open spec fn with_setting(s: Seq<SettingView>, id: Seq<char>) -> Seq<SettingView> {
    if place_of(s, id, 0) is Some {
        s
    } else {
        s.push(SettingView { id, enabled: false, mode: None })
    }
}

pub open spec fn setting_place(s: Seq<SettingView>, id: Seq<char>) -> int {
    match place_of(s, id, 0) {
        Some(i) => i,
        None => s.len() as int,
    }
}

pub open spec fn any_enabled(s: Seq<SettingView>) -> bool {
    exists|i: int| 0 <= i < s.len() && (#[trigger] s[i]).enabled
}

/// The configuration with the watcher on, in the mode asked for if one was; the
/// daemon is on with it.
pub open spec fn enabled_config(
    config: AutomationsView,
    id: Seq<char>,
    mode: Option<Seq<char>>,
) -> AutomationsView {
    let all = with_setting(config.watchers, id);
    let at = setting_place(config.watchers, id);
    AutomationsView {
        watchers: all.update(
            at,
            SettingView {
                enabled: true,
                mode: if mode is Some {
                    mode
                } else {
                    all[at].mode
                },
                ..all[at]
            },
        ),
        daemon_enabled: true,
    }
}

/// The configuration with the watcher off; the daemon goes off with the last.
pub open spec fn disabled_config(config: AutomationsView, id: Seq<char>) -> AutomationsView {
    let all = with_setting(config.watchers, id);
    let at = setting_place(config.watchers, id);
    let watchers = all.update(at, SettingView { enabled: false, ..all[at] });
    AutomationsView {
        watchers,
        daemon_enabled: config.daemon_enabled && any_enabled(watchers),
    }
}

proof fn lemma_place(s: Seq<SettingView>, id: Seq<char>, from: int)
    requires
        0 <= from,
    ensures
        place_of(s, id, from) matches Some(i) ==> from <= i < s.len() && s[i].id == id,
    decreases s.len() - from,
{
    if from < s.len() && s[from].id != id {
        lemma_place(s, id, from + 1);
    }
}

fn place_setting(config: &mut AutomationsConfig, id: &str) -> (at: usize)
    ensures
        at < final(config).watchers@.len(),
        at == setting_place(old(config)@.watchers, id@),
        final(config)@.watchers == with_setting(old(config)@.watchers, id@),
        final(config)@.daemon_enabled == old(config)@.daemon_enabled,
{
    let ghost all = config@.watchers;
    let mut i: usize = 0;
    while i < config.watchers.len()
        invariant
            i <= config.watchers@.len(),
            all == config@.watchers,
            *config == *old(config),
            all == old(config)@.watchers,
            place_of(all, id@, 0) == place_of(all, id@, i as int),
        decreases config.watchers@.len() - i,
    {
        assert(all[i as int] == config.watchers@[i as int]@);
        if same(config.watchers[i].id.as_str(), id) {
            return i;
        }
        i += 1;
    }
    let at: usize = config.watchers.len();
    config.watchers.push(WatcherSetting { id: id.to_owned(), enabled: false, mode: None });
    assert(config@.watchers =~= all.push(
        SettingView { id: id@, enabled: false, mode: None },
    ));
    at
}

fn is_any_enabled(watchers: &Vec<WatcherSetting>) -> (r: bool)
    ensures
        r == any_enabled(setting_views(watchers@)),
{
    let ghost all = setting_views(watchers@);
    let mut i: usize = 0;
    while i < watchers.len()
        invariant
            i <= watchers@.len(),
            all == setting_views(watchers@),
            forall|j: int| 0 <= j < i ==> !(#[trigger] all[j]).enabled,
        decreases watchers@.len() - i,
    {
        assert(all[i as int] == watchers@[i as int]@);
        if watchers[i].enabled {
            return true;
        }
        i += 1;
    }
    false
}

/// The name was not that of a watcher.
pub open spec fn unknown_watcher(watcher: Seq<char>) -> Seq<Seq<char>> {
    plain("unknown watcher: "@ + watcher)
}

fn refuse_watcher(watcher: &str) -> (r: Failure)
    ensures
        r@ == unknown_watcher(watcher@),
{
    let mut message = "unknown watcher: ".to_owned();
    message.push_str(watcher);
    Failure::new(message)
}

/// Switches a watcher on. `spec` is the watcher of that name, if there is one.
pub fn enable(
    config: &mut AutomationsConfig,
    watcher: &str,
    spec: &Option<Watcher>,
    mode: Option<&str>,
) -> (r: Result<(), Failure>)
    ensures
        match *spec {
            None => told(r) == Err::<(), _>(unknown_watcher(watcher@)) && final(config)@ == old(
                config,
            )@,
            Some(w) => r is Ok && final(config)@ == enabled_config(
                old(config)@,
                w.id@,
                opt_text(mode),
            ),
        },
{
    let found = match spec {
        None => {
            return Err(refuse_watcher(watcher));
        },
        Some(found) => found,
    };
    let at: usize = place_setting(config, found.id.as_str());
    let ghost all = config@.watchers;
    assert(all[at as int] == config.watchers@[at as int]@);
    let kept = clone_opt(&config.watchers[at].mode);
    let id = config.watchers[at].id.clone();
    let chosen = match mode {
        Some(m) => Some(m.to_owned()),
        None => kept,
    };
    config.watchers.set(at, WatcherSetting { id, enabled: true, mode: chosen });
    config.daemon_enabled = true;
    assert(config@.watchers =~= enabled_config(old(config)@, found.id@, opt_text(mode)).watchers);
    Ok(())
}

/// Switches a watcher off. `spec` is the watcher of that name, if there is one.
pub fn disable(config: &mut AutomationsConfig, watcher: &str, spec: &Option<Watcher>) -> (r: Result<
    (),
    Failure,
>)
    ensures
        match *spec {
            None => told(r) == Err::<(), _>(unknown_watcher(watcher@)) && final(config)@ == old(
                config,
            )@,
            Some(w) => r is Ok && final(config)@ == disabled_config(old(config)@, w.id@),
        },
{
    let found = match spec {
        None => {
            return Err(refuse_watcher(watcher));
        },
        Some(found) => found,
    };
    let at: usize = place_setting(config, found.id.as_str());
    let ghost all = config@.watchers;
    assert(all[at as int] == config.watchers@[at as int]@);
    let mode = clone_opt(&config.watchers[at].mode);
    let id = config.watchers[at].id.clone();
    config.watchers.set(at, WatcherSetting { id, enabled: false, mode });
    assert(config@.watchers =~= disabled_config(old(config)@, found.id@).watchers);
    if !is_any_enabled(&config.watchers) {
        config.daemon_enabled = false;
    }
    Ok(())
}

// ---------------------------------------------------------------------------
// Telling about it
// ---------------------------------------------------------------------------

pub open spec fn enabled_text(w: Watcher, mode: Seq<char>, config_path: Seq<char>) -> Seq<char> {
    "automation watcher enabled\n  watcher: "@ + w.id@ + "\n  mode: "@ + mode + "\n  trigger: "@
        + w.trigger@ + "\n"@ + (match w.policy {
        Some(note) => "  policy: "@ + note@ + "\n"@,
        None => Seq::<char>::empty(),
    }) + "  config: "@ + config_path
        + "\n  next step: run `rocmd run --automations-enabled` to start the persistent watcher loop\n"@
}

/// What is said once a watcher is on; `mode` is the mode it runs in.
pub fn render_enabled(watcher: &Watcher, mode: &str, config_path: &str) -> (r: String)
    ensures
        r@ == enabled_text(*watcher, mode@, config_path@),
{
    let mut out = "automation watcher enabled\n  watcher: ".to_owned();
    out.push_str(watcher.id.as_str());
    out.push_str("\n  mode: ");
    out.push_str(mode);
    out.push_str("\n  trigger: ");
    out.push_str(watcher.trigger.as_str());
    out.push_str("\n");
    match &watcher.policy {
        Some(note) => {
            let mut line = "  policy: ".to_owned();
            line.push_str(note.as_str());
            line.push_str("\n");
            out.push_str(line.as_str());
        },
        None => {
            assert(out@ + Seq::<char>::empty() =~= out@);
        },
    }
    out.push_str("  config: ");
    out.push_str(config_path);
    out.push_str(
        "\n  next step: run `rocmd run --automations-enabled` to start the persistent watcher loop\n",
    );
    out
}

/// What is said once a watcher is off.
pub fn render_disabled(watcher: &Watcher, config_path: &str) -> (r: String)
    ensures
        r@ == "automation watcher disabled\n  watcher: "@ + watcher.id@ + "\n  config: "@
            + config_path@ + "\n"@,
{
    let mut out = "automation watcher disabled\n  watcher: ".to_owned();
    out.push_str(watcher.id.as_str());
    out.push_str("\n  config: ");
    out.push_str(config_path);
    out.push_str("\n");
    out
}

// ---------------------------------------------------------------------------
// Laws
// ---------------------------------------------------------------------------

/// A watcher that is switched on is on, and the daemon that runs it is too; every
/// other watcher is as it was.
pub proof fn law_enabling_switches_one_watcher_on(
    config: AutomationsView,
    id: Seq<char>,
    mode: Option<Seq<char>>,
)
    ensures
        ({
            let after = enabled_config(config, id, mode);
            let at = setting_place(config.watchers, id);
            &&& after.daemon_enabled
            &&& 0 <= at < after.watchers.len()
            &&& after.watchers[at].id == id
            &&& after.watchers[at].enabled
            &&& forall|i: int|
                0 <= i < config.watchers.len() && i != at ==> #[trigger] after.watchers[i]
                    == config.watchers[i]
        }),
{
    lemma_place(config.watchers, id, 0);
}

/// A watcher that is switched off is off, every other is as it was, and the
/// daemon runs on only while it was running and some watcher is on.
pub proof fn law_the_daemon_stops_with_the_last_watcher(config: AutomationsView, id: Seq<char>)
    ensures
        ({
            let after = disabled_config(config, id);
            let at = setting_place(config.watchers, id);
            &&& 0 <= at < after.watchers.len()
            &&& after.watchers[at].id == id
            &&& !after.watchers[at].enabled
            &&& forall|i: int|
                0 <= i < config.watchers.len() && i != at ==> #[trigger] after.watchers[i]
                    == config.watchers[i]
            &&& !any_enabled(after.watchers) ==> !after.daemon_enabled
            &&& any_enabled(after.watchers) ==> after.daemon_enabled == config.daemon_enabled
        }),
{
    lemma_place(config.watchers, id, 0);
}

proof fn lemma_first_place(s: Seq<SettingView>, id: Seq<char>, from: int, at: int)
    requires
        0 <= from <= at <= s.len(),
        forall|i: int| from <= i < at ==> (#[trigger] s[i]).id != id,
        at < s.len() ==> s[at].id == id,
    ensures
        place_of(s, id, from) == (if at < s.len() {
            Some(at)
        } else {
            None
        }),
    decreases at - from,
{
    if from < at {
        assert(s[from].id != id);
        lemma_first_place(s, id, from + 1, at);
    }
}

/// Switching a watcher on or off touches the first setting of its name and no other, and
/// adds one at the end where there is none. On, it runs in the mode asked for, or in the
/// one it had where none was; off, it keeps its mode. The daemon goes on with any
/// watcher, and off with the last.
pub proof fn law_switching_touches_one_setting(
    config: AutomationsView,
    id: Seq<char>,
    mode: Option<Seq<char>>,
    at: int,
)
    requires
        0 <= at <= config.watchers.len(),
        forall|i: int| 0 <= i < at ==> (#[trigger] config.watchers[i]).id != id,
        at < config.watchers.len() ==> config.watchers[at].id == id,
    ensures
        ({
            let on = enabled_config(config, id, mode);
            let off = disabled_config(config, id);
            let had = if at < config.watchers.len() {
                config.watchers[at].mode
            } else {
                None
            };
            let size = if at < config.watchers.len() {
                config.watchers.len()
            } else {
                config.watchers.len() + 1
            };
            &&& on.watchers.len() == size && off.watchers.len() == size
            &&& forall|i: int|
                0 <= i < config.watchers.len() && i != at ==> #[trigger] on.watchers[i]
                    == config.watchers[i] && off.watchers[i] == config.watchers[i]
            &&& on.watchers[at].id == id && off.watchers[at].id == id
            &&& on.watchers[at].enabled && !off.watchers[at].enabled
            &&& mode is Some ==> on.watchers[at].mode == mode
            &&& mode is None ==> on.watchers[at].mode == had
            &&& off.watchers[at].mode == had
            &&& on.daemon_enabled
            &&& off.daemon_enabled <==> config.daemon_enabled && exists|i: int|
                0 <= i < config.watchers.len() && i != at && (
                #[trigger] config.watchers[i]).enabled
        }),
{
    lemma_first_place(config.watchers, id, 0, at);
    let off = disabled_config(config, id);
    if any_enabled(off.watchers) {
        let i = choose|i: int| 0 <= i < off.watchers.len() && (#[trigger] off.watchers[i]).enabled;
        assert(config.watchers[i].enabled);
    }
    if exists|i: int|
        0 <= i < config.watchers.len() && i != at && (#[trigger] config.watchers[i]).enabled {
        let i = choose|i: int|
            0 <= i < config.watchers.len() && i != at && (#[trigger] config.watchers[i]).enabled;
        assert(off.watchers[i].enabled);
    }
}

/// Switching a watcher on tells its name, its mode, what sets it off, what the policy says
/// of it where it says anything, and where that is kept; and a name that is no watcher's
/// is repeated.
pub proof fn law_a_watcher_is_told_about(
    w: Watcher,
    mode: Seq<char>,
    config_path: Seq<char>,
    watcher: Seq<char>,
)
    ensures
        ({
            let text = enabled_text(w, mode, config_path);
            &&& has_text(text, "watcher: "@ + w.id@ + "\n  mode: "@ + mode + "\n"@)
            &&& has_text(text, "trigger: "@ + w.trigger@ + "\n"@)
            &&& w.policy matches Some(note) ==> has_text(text, "  policy: "@ + note@ + "\n"@)
            &&& w.policy is None ==> has_text(text, w.trigger@ + "\n  config: "@)
            &&& has_text(text, "config: "@ + config_path + "\n"@)
        }),
        unknown_watcher(watcher) == seq!["unknown watcher: "@ + watcher],
{
    let text = enabled_text(w, mode, config_path);
    let a = "automation watcher enabled\n  watcher: "@;
    let c = "\n  mode: "@;
    let e = "\n  trigger: "@;
    let note = match w.policy {
        Some(note) => "  policy: "@ + note@ + "\n"@,
        None => Seq::<char>::empty(),
    };
    let g = "  config: "@;
    let h =
        "\n  next step: run `rocmd run --automations-enabled` to start the persistent watcher loop\n"@;
    reveal_strlit("automation watcher enabled\n  watcher: ");
    reveal_strlit("watcher: ");
    reveal_strlit("\n  trigger: ");
    reveal_strlit("trigger: ");
    reveal_strlit("  config: ");
    reveal_strlit("config: ");
    reveal_strlit("\n  config: ");
    reveal_strlit("\n");
    reveal_strlit(
        "\n  next step: run `rocmd run --automations-enabled` to start the persistent watcher loop\n",
    );
    let a0 = a.subrange(0, a.len() - 9);
    assert(a =~= a0 + "watcher: "@);
    let e1 = e.subrange(1, e.len() as int);
    assert(e =~= "\n"@ + e1);
    let e0 = e.subrange(0, 3);
    assert(e =~= e0 + "trigger: "@);
    let g0 = g.subrange(0, 2);
    assert(g =~= g0 + "config: "@);
    let h1 = h.subrange(1, h.len() as int);
    assert(h =~= "\n"@ + h1);
    let rest = w.trigger@ + "\n"@ + note + g + config_path + h;
    let first = "watcher: "@ + w.id@ + c + mode + "\n"@;
    assert(text =~= a0 + first + (e1 + rest));
    lemma_has_text(a0, first, e1 + rest);
    let lead = a + w.id@ + c + mode;
    let second = "trigger: "@ + w.trigger@ + "\n"@;
    assert(text =~= (lead + e0) + second + (note + g + config_path + h));
    lemma_has_text(lead + e0, second, note + g + config_path + h);
    let third = lead + e + w.trigger@ + "\n"@;
    assert(text =~= third + note + (g + config_path + h));
    lemma_has_text(third, note, g + config_path + h);
    let last = "config: "@ + config_path + "\n"@;
    assert(text =~= (third + note + g0) + last + h1);
    lemma_has_text(third + note + g0, last, h1);
    if w.policy is None {
        let link = w.trigger@ + "\n  config: "@;
        assert("\n  config: "@ =~= "\n"@ + g);
        assert(text =~= (lead + e) + link + (config_path + h));
        lemma_has_text(lead + e, link, config_path + h);
    }
}

} // verus!
