//! User-defined shell hooks at points of the merge workflow.
//!
//! Hooks are configured per trigger (`post_checkout`, `pre_cherry_pick`,
//! `post_cherry_pick`, `post_merge`, `on_conflict`, `post_complete`). The
//! library decides which command runs next, when a run stops (at the first
//! failing command), and what a failed run means for the workflow (abort or
//! continue, by the trigger's failure mode); running the commands is the
//! caller's part.

use vstd::prelude::*;
use crate::text::{concat2, decimal_int, i32_to_decimal, str_eq};

verus! {

/// What to do when a hook command fails.
#[derive(Debug, Clone, Copy, PartialEq, Eq, Structural)]
pub enum HookFailureMode {
    /// Abort the workflow.
    Abort,
    /// Continue the workflow with a warning.
    Continue,
}

impl Default for HookFailureMode {
    fn default() -> (r: Self)
        ensures
            r == HookFailureMode::Continue,
    {
        HookFailureMode::Continue
    }
}

/// Whether hooks run synchronously or are started and left running.
#[derive(Debug, Clone, Copy, PartialEq, Eq, Structural)]
pub enum HookExecutionMode {
    /// Run synchronously, blocking the workflow.
    Blocking,
    /// Start and continue immediately.
    Async,
}

impl Default for HookExecutionMode {
    fn default() -> (r: Self)
        ensures
            r == HookExecutionMode::Blocking,
    {
        HookExecutionMode::Blocking
    }
}

/// Hook trigger points in the merge workflow.
#[derive(Debug, Clone, Copy, PartialEq, Eq, Hash, Structural)]
pub enum HookTrigger {
    PostCheckout,
    PreCherryPick,
    PostCherryPick,
    PostMerge,
    OnConflict,
    PostComplete,
}

/// The configuration key of a trigger.
pub open spec fn trigger_key(t: HookTrigger) -> Seq<char> {
    match t {
        HookTrigger::PostCheckout => "post_checkout"@,
        HookTrigger::PreCherryPick => "pre_cherry_pick"@,
        HookTrigger::PostCherryPick => "post_cherry_pick"@,
        HookTrigger::PostMerge => "post_merge"@,
        HookTrigger::OnConflict => "on_conflict"@,
        HookTrigger::PostComplete => "post_complete"@,
    }
}

/// The display name of a trigger.
pub open spec fn trigger_description(t: HookTrigger) -> Seq<char> {
    match t {
        HookTrigger::PostCheckout => "post-checkout"@,
        HookTrigger::PreCherryPick => "pre-cherry-pick"@,
        HookTrigger::PostCherryPick => "post-cherry-pick"@,
        HookTrigger::PostMerge => "post-merge"@,
        HookTrigger::OnConflict => "on-conflict"@,
        HookTrigger::PostComplete => "post-complete"@,
    }
}

/// The failure mode of a trigger when its configuration sets none: setup
/// and pre-hooks abort, post-hooks continue.
pub open spec fn trigger_default_mode(t: HookTrigger) -> HookFailureMode {
    match t {
        HookTrigger::PostCheckout | HookTrigger::PreCherryPick => HookFailureMode::Abort,
        _ => HookFailureMode::Continue,
    }
}

/// The trigger whose key is `key`.
pub open spec fn trigger_of_key(key: Seq<char>) -> Option<HookTrigger> {
    if key == "post_checkout"@ {
        Some(HookTrigger::PostCheckout)
    } else if key == "pre_cherry_pick"@ {
        Some(HookTrigger::PreCherryPick)
    } else if key == "post_cherry_pick"@ {
        Some(HookTrigger::PostCherryPick)
    } else if key == "post_merge"@ {
        Some(HookTrigger::PostMerge)
    } else if key == "on_conflict"@ {
        Some(HookTrigger::OnConflict)
    } else if key == "post_complete"@ {
        Some(HookTrigger::PostComplete)
    } else {
        None
    }
}

impl HookTrigger {
    /// The configuration key of this trigger.
    pub fn config_key(&self) -> (r: &'static str)
        ensures
            r@ == trigger_key(*self),
    {
        match self {
            HookTrigger::PostCheckout => "post_checkout",
            HookTrigger::PreCherryPick => "pre_cherry_pick",
            HookTrigger::PostCherryPick => "post_cherry_pick",
            HookTrigger::PostMerge => "post_merge",
            HookTrigger::OnConflict => "on_conflict",
            HookTrigger::PostComplete => "post_complete",
        }
    }

    /// The display name of this trigger.
    pub fn description(&self) -> (r: &'static str)
        ensures
            r@ == trigger_description(*self),
    {
        match self {
            HookTrigger::PostCheckout => "post-checkout",
            HookTrigger::PreCherryPick => "pre-cherry-pick",
            HookTrigger::PostCherryPick => "post-cherry-pick",
            HookTrigger::PostMerge => "post-merge",
            HookTrigger::OnConflict => "on-conflict",
            HookTrigger::PostComplete => "post-complete",
        }
    }

    /// The failure mode used when the configuration sets none.
    pub fn default_failure_mode(&self) -> (r: HookFailureMode)
        ensures
            r == trigger_default_mode(*self),
    {
        match self {
            HookTrigger::PostCheckout | HookTrigger::PreCherryPick => HookFailureMode::Abort,
            _ => HookFailureMode::Continue,
        }
    }

    /// The trigger named by a configuration key, if any.
    pub fn from_config_key(key: &str) -> (r: Option<HookTrigger>)
        ensures
            r == trigger_of_key(key@),
    {
        if str_eq(key, "post_checkout") {
            Some(HookTrigger::PostCheckout)
        } else if str_eq(key, "pre_cherry_pick") {
            Some(HookTrigger::PreCherryPick)
        } else if str_eq(key, "post_cherry_pick") {
            Some(HookTrigger::PostCherryPick)
        } else if str_eq(key, "post_merge") {
            Some(HookTrigger::PostMerge)
        } else if str_eq(key, "on_conflict") {
            Some(HookTrigger::OnConflict)
        } else if str_eq(key, "post_complete") {
            Some(HookTrigger::PostComplete)
        } else {
            None
        }
    }
}

/// Reading back the key of a trigger gives the trigger; a key names a
/// trigger only if it is that trigger's key.
pub proof fn law_config_key_round_trip(t: HookTrigger, key: Seq<char>)
    ensures
        trigger_of_key(trigger_key(t)) == Some(t),
        trigger_of_key(key) matches Some(u) ==> trigger_key(u) == key,
{
    reveal_strlit("post_checkout");
    reveal_strlit("pre_cherry_pick");
    reveal_strlit("post_cherry_pick");
    reveal_strlit("post_merge");
    reveal_strlit("on_conflict");
    reveal_strlit("post_complete");
    assert("post_checkout"@.len() == 13);
    assert("pre_cherry_pick"@.len() == 15);
    assert("post_cherry_pick"@.len() == 16);
    assert("post_merge"@.len() == 10);
    assert("on_conflict"@.len() == 11);
    assert("post_complete"@.len() == 13);
    assert("post_checkout"@[6] != "post_complete"@[6]);
}

/// The default timeout of a hook command, in seconds.
pub const DEFAULT_TIMEOUT_SECS: u64 = 300;

/// Configuration of one trigger's hooks.
#[derive(Debug, Clone)]
pub struct HookTriggerConfig {
    /// Commands to run, in order.
    pub commands: Vec<String>,
    /// What to do on failure (the trigger's default when unset).
    pub on_failure: Option<HookFailureMode>,
    /// Execution mode.
    pub execution: HookExecutionMode,
    /// Timeout per command, in seconds.
    pub timeout_secs: u64,
}

impl Default for HookTriggerConfig {
    fn default() -> (r: Self)
        ensures
            r.commands@.len() == 0,
            r.on_failure is None,
            r.execution == HookExecutionMode::Blocking,
            r.timeout_secs == DEFAULT_TIMEOUT_SECS,
    {
        HookTriggerConfig {
            commands: Vec::new(),
            on_failure: None,
            execution: HookExecutionMode::Blocking,
            timeout_secs: DEFAULT_TIMEOUT_SECS,
        }
    }
}

impl HookTriggerConfig {
    /// An empty configuration: no commands, the trigger's default failure
    /// mode, blocking execution and the default timeout (300 seconds).
    pub fn new() -> (r: Self)
        ensures
            r.commands@.len() == 0,
            r.on_failure is None,
            r.execution == HookExecutionMode::Blocking,
            r.timeout_secs == DEFAULT_TIMEOUT_SECS,
    {
        HookTriggerConfig::default()
    }

    /// A configuration running `commands` with default settings.
    pub fn from_commands(commands: Vec<String>) -> (r: Self)
        ensures
            r.commands == commands,
            r.on_failure is None,
            r.execution == HookExecutionMode::Blocking,
            r.timeout_secs == DEFAULT_TIMEOUT_SECS,
    {
        HookTriggerConfig { commands, on_failure: None, execution: HookExecutionMode::Blocking, timeout_secs: DEFAULT_TIMEOUT_SECS }
    }

    /// A configuration from the fields of its table form, each optional:
    /// no commands, the trigger's default failure mode, blocking execution
    /// and the default timeout stand for the missing ones.
    pub fn from_fields(
        commands: Option<Vec<String>>,
        on_failure: Option<HookFailureMode>,
        execution: Option<HookExecutionMode>,
        timeout_secs: Option<u64>,
    ) -> (r: Self)
        ensures
            r.commands@ == match commands {
                Some(c) => c@,
                None => Seq::<String>::empty(),
            },
            r.on_failure == on_failure,
            r.execution == match execution {
                Some(e) => e,
                None => HookExecutionMode::Blocking,
            },
            r.timeout_secs == match timeout_secs {
                Some(t) => t,
                None => DEFAULT_TIMEOUT_SECS,
            },
    {
        HookTriggerConfig {
            commands: match commands {
                Some(c) => c,
                None => Vec::new(),
            },
            on_failure,
            execution: match execution {
                Some(e) => e,
                None => HookExecutionMode::Blocking,
            },
            timeout_secs: match timeout_secs {
                Some(t) => t,
                None => DEFAULT_TIMEOUT_SECS,
            },
        }
    }

    /// Whether this configuration has any command.
    pub fn has_commands(&self) -> (r: bool)
        ensures
            r == (self.commands@.len() > 0),
    {
        self.commands.len() > 0
    }

    /// A copy of this configuration.
    pub fn duplicate(&self) -> (r: Self)
        ensures
            same_trigger_config(r, *self),
    {
        HookTriggerConfig {
            commands: crate::operations::dependency_analysis::copy_strings(&self.commands),
            on_failure: self.on_failure,
            execution: self.execution,
            timeout_secs: self.timeout_secs,
        }
    }

    /// The failure mode, falling back to the trigger's default.
    pub fn failure_mode(&self, trigger: HookTrigger) -> (r: HookFailureMode)
        ensures
            r == match self.on_failure {
                Some(m) => m,
                None => trigger_default_mode(trigger),
            },
    {
        match self.on_failure {
            Some(m) => m,
            None => trigger.default_failure_mode(),
        }
    }
}

/// Hook configuration for every trigger.
#[derive(Debug, Clone)]
pub struct HooksConfig {
    pub post_checkout: HookTriggerConfig,
    pub pre_cherry_pick: HookTriggerConfig,
    pub post_cherry_pick: HookTriggerConfig,
    pub post_merge: HookTriggerConfig,
    pub on_conflict: HookTriggerConfig,
    pub post_complete: HookTriggerConfig,
}

/// The configuration of a trigger.
pub open spec fn config_of(c: HooksConfig, t: HookTrigger) -> HookTriggerConfig {
    match t {
        HookTrigger::PostCheckout => c.post_checkout,
        HookTrigger::PreCherryPick => c.pre_cherry_pick,
        HookTrigger::PostCherryPick => c.post_cherry_pick,
        HookTrigger::PostMerge => c.post_merge,
        HookTrigger::OnConflict => c.on_conflict,
        HookTrigger::PostComplete => c.post_complete,
    }
}

/// Whether two trigger configurations have the same commands and settings.
pub open spec fn same_trigger_config(a: HookTriggerConfig, b: HookTriggerConfig) -> bool {
    &&& a.commands@ == b.commands@
    &&& a.on_failure == b.on_failure
    &&& a.execution == b.execution
    &&& a.timeout_secs == b.timeout_secs
}

/// Whether two configurations agree on every trigger.
pub open spec fn same_hooks(a: HooksConfig, b: HooksConfig) -> bool {
    forall|t: HookTrigger| #![auto] same_trigger_config(config_of(a, t), config_of(b, t))
}

/// Whether a trigger has commands configured.
pub open spec fn has_commands_for(c: HooksConfig, t: HookTrigger) -> bool {
    config_of(c, t).commands@.len() > 0
}

/// Whether a trigger's configuration is the empty one: no commands, no
/// failure mode of its own, blocking execution, the default timeout.
pub open spec fn empty_trigger(c: HookTriggerConfig) -> bool {
    &&& c.commands@.len() == 0
    &&& c.on_failure is None
    &&& c.execution == HookExecutionMode::Blocking
    &&& c.timeout_secs == DEFAULT_TIMEOUT_SECS
}

/// The configuration a merge keeps for one trigger: `other`'s when it has
/// commands, otherwise `base`'s.
pub open spec fn merged_trigger(base: HookTriggerConfig, other: HookTriggerConfig) -> HookTriggerConfig {
    if other.commands@.len() > 0 { other } else { base }
}

impl Default for HooksConfig {
    fn default() -> (r: Self)
        ensures
            forall|t: HookTrigger| #![auto] !has_commands_for(r, t) && config_of(r, t).on_failure is None,
            forall|t: HookTrigger| #![auto] empty_trigger(config_of(r, t)),
    {
        HooksConfig {
            post_checkout: HookTriggerConfig::default(),
            pre_cherry_pick: HookTriggerConfig::default(),
            post_cherry_pick: HookTriggerConfig::default(),
            post_merge: HookTriggerConfig::default(),
            on_conflict: HookTriggerConfig::default(),
            post_complete: HookTriggerConfig::default(),
        }
    }
}

impl HooksConfig {
    /// An empty configuration: every trigger has the empty configuration.
    pub fn new() -> (r: Self)
        ensures
            forall|t: HookTrigger| #![auto] !has_commands_for(r, t),
            forall|t: HookTrigger| #![auto] empty_trigger(config_of(r, t)),
    {
        HooksConfig::default()
    }

    /// A copy of this configuration.
    pub fn duplicate(&self) -> (r: Self)
        ensures
            same_hooks(r, *self),
    {
        HooksConfig {
            post_checkout: self.post_checkout.duplicate(),
            pre_cherry_pick: self.pre_cherry_pick.duplicate(),
            post_cherry_pick: self.post_cherry_pick.duplicate(),
            post_merge: self.post_merge.duplicate(),
            on_conflict: self.on_conflict.duplicate(),
            post_complete: self.post_complete.duplicate(),
        }
    }

    /// The configuration of a trigger.
    pub fn config_for(&self, trigger: HookTrigger) -> (r: &HookTriggerConfig)
        ensures
            *r == config_of(*self, trigger),
    {
        match trigger {
            HookTrigger::PostCheckout => &self.post_checkout,
            HookTrigger::PreCherryPick => &self.pre_cherry_pick,
            HookTrigger::PostCherryPick => &self.post_cherry_pick,
            HookTrigger::PostMerge => &self.post_merge,
            HookTrigger::OnConflict => &self.on_conflict,
            HookTrigger::PostComplete => &self.post_complete,
        }
    }

    /// The commands of a trigger.
    pub fn commands_for(&self, trigger: HookTrigger) -> (r: &[String])
        ensures
            r@ == config_of(*self, trigger).commands@,
    {
        self.config_for(trigger).commands.as_slice()
    }

    /// Whether any trigger has commands.
    pub fn has_hooks(&self) -> (r: bool)
        ensures
            r == exists|t: HookTrigger| #![auto] has_commands_for(*self, t),
    {
        let r = self.post_checkout.has_commands() || self.pre_cherry_pick.has_commands()
            || self.post_cherry_pick.has_commands() || self.post_merge.has_commands()
            || self.on_conflict.has_commands() || self.post_complete.has_commands();
        proof {
            if r {
                if self.post_checkout.commands@.len() > 0 {
                    assert(has_commands_for(*self, HookTrigger::PostCheckout));
                } else if self.pre_cherry_pick.commands@.len() > 0 {
                    assert(has_commands_for(*self, HookTrigger::PreCherryPick));
                } else if self.post_cherry_pick.commands@.len() > 0 {
                    assert(has_commands_for(*self, HookTrigger::PostCherryPick));
                } else if self.post_merge.commands@.len() > 0 {
                    assert(has_commands_for(*self, HookTrigger::PostMerge));
                } else if self.on_conflict.commands@.len() > 0 {
                    assert(has_commands_for(*self, HookTrigger::OnConflict));
                } else {
                    assert(has_commands_for(*self, HookTrigger::PostComplete));
                }
            }
        }
        r
    }

    /// Whether a trigger has commands.
    pub fn has_hooks_for(&self, trigger: HookTrigger) -> (r: bool)
        ensures
            r == has_commands_for(*self, trigger),
    {
        self.config_for(trigger).has_commands()
    }

    /// Merges `other` into this configuration: for each trigger, `other`'s
    /// configuration replaces this one's when it has commands.
    pub fn merge(self, other: Self) -> (r: Self)
        ensures
            forall|t: HookTrigger| #![auto] config_of(r, t) == merged_trigger(config_of(self, t), config_of(other, t)),
    {
        let post_checkout = if other.post_checkout.has_commands() { other.post_checkout } else { self.post_checkout };
        let pre_cherry_pick = if other.pre_cherry_pick.has_commands() { other.pre_cherry_pick } else { self.pre_cherry_pick };
        let post_cherry_pick = if other.post_cherry_pick.has_commands() { other.post_cherry_pick } else { self.post_cherry_pick };
        let post_merge = if other.post_merge.has_commands() { other.post_merge } else { self.post_merge };
        let on_conflict = if other.on_conflict.has_commands() { other.on_conflict } else { self.on_conflict };
        let post_complete = if other.post_complete.has_commands() { other.post_complete } else { self.post_complete };
        HooksConfig { post_checkout, pre_cherry_pick, post_cherry_pick, post_merge, on_conflict, post_complete }
    }

    /// A configuration from plain command lists, one per trigger.
    pub fn from_simple(
        post_checkout: Vec<String>,
        pre_cherry_pick: Vec<String>,
        post_cherry_pick: Vec<String>,
        post_merge: Vec<String>,
        on_conflict: Vec<String>,
        post_complete: Vec<String>,
    ) -> (r: Self)
        ensures
            r.post_checkout.commands == post_checkout,
            r.pre_cherry_pick.commands == pre_cherry_pick,
            r.post_cherry_pick.commands == post_cherry_pick,
            r.post_merge.commands == post_merge,
            r.on_conflict.commands == on_conflict,
            r.post_complete.commands == post_complete,
            forall|t: HookTrigger| #![auto] config_of(r, t).on_failure is None && config_of(r, t).timeout_secs == DEFAULT_TIMEOUT_SECS
                && config_of(r, t).execution == HookExecutionMode::Blocking,
    {
        HooksConfig {
            post_checkout: HookTriggerConfig::from_commands(post_checkout),
            pre_cherry_pick: HookTriggerConfig::from_commands(pre_cherry_pick),
            post_cherry_pick: HookTriggerConfig::from_commands(post_cherry_pick),
            post_merge: HookTriggerConfig::from_commands(post_merge),
            on_conflict: HookTriggerConfig::from_commands(on_conflict),
            post_complete: HookTriggerConfig::from_commands(post_complete),
        }
    }
}

/// Merging is right-biased per trigger: the other configuration wins
/// wherever it has commands, and merging with a configuration that has no
/// commands keeps every trigger's configuration.
pub proof fn law_merge_precedence(base: HooksConfig, other: HooksConfig, merged: HooksConfig, t: HookTrigger)
    requires
        forall|u: HookTrigger| #![auto] config_of(merged, u) == merged_trigger(config_of(base, u), config_of(other, u)),
    ensures
        has_commands_for(other, t) ==> config_of(merged, t) == config_of(other, t),
        !has_commands_for(other, t) ==> config_of(merged, t) == config_of(base, t),
        has_commands_for(merged, t) == (has_commands_for(base, t) || has_commands_for(other, t)),
{
}

// ==================== Context ====================

/// Context of a hook run, exported to the commands as environment variables.
#[derive(Debug, Clone)]
pub struct HookContext {
    pub version: Option<String>,
    pub target_branch: Option<String>,
    pub dev_branch: Option<String>,
    pub repo_path: Option<String>,
    pub pr_id: Option<i32>,
    pub commit_id: Option<String>,
}

impl Default for HookContext {
    fn default() -> (r: Self)
        ensures
            r.version is None,
            r.target_branch is None,
            r.dev_branch is None,
            r.repo_path is None,
            r.pr_id is None,
            r.commit_id is None,
    {
        HookContext { version: None, target_branch: None, dev_branch: None, repo_path: None, pr_id: None, commit_id: None }
    }
}

/// One environment variable.
#[derive(Debug, Clone)]
pub struct EnvVar {
    pub name: String,
    pub value: String,
}

/// The environment variables of a hook run, each name at most once.
#[derive(Debug, Clone)]
pub struct EnvVars {
    pub entries: Vec<EnvVar>,
}

/// The pairs of an environment, in order.
pub open spec fn env_view(e: EnvVars) -> Seq<(Seq<char>, Seq<char>)> {
    e.entries@.map_values(|v: EnvVar| (v.name@, v.value@))
}

/// The value of `name` in a list of pairs with distinct names.
pub open spec fn env_lookup(pairs: Seq<(Seq<char>, Seq<char>)>, name: Seq<char>) -> Option<Seq<char>>
    decreases pairs.len(),
{
    if pairs.len() == 0 {
        None
    } else if pairs.last().0 == name {
        Some(pairs.last().1)
    } else {
        env_lookup(pairs.drop_last(), name)
    }
}

impl EnvVars {
    /// The value of a variable, if set.
    pub fn get(&self, name: &str) -> (r: Option<&String>)
        ensures
            match r {
                Some(v) => env_lookup(env_view(*self), name@) == Some(v@),
                None => env_lookup(env_view(*self), name@) is None,
            },
    {
        proof {
            assert(env_view(*self).subrange(0, self.entries@.len() as int) =~= env_view(*self));
        }
        let mut i: usize = self.entries.len();
        while i > 0
            invariant
                0 <= i <= self.entries@.len(),
                env_lookup(env_view(*self), name@) == env_lookup(env_view(*self).subrange(0, i as int), name@),
            decreases i,
        {
            proof {
                let s = env_view(*self).subrange(0, i as int);
                assert(s.drop_last() =~= env_view(*self).subrange(0, i - 1));
                assert(s.last() == (self.entries@[i - 1].name@, self.entries@[i - 1].value@));
            }
            if str_eq(self.entries[i - 1].name.as_str(), name) {
                return Some(&self.entries[i - 1].value);
            }
            i = i - 1;
        }
        None
    }

    /// Whether a variable is set.
    pub fn contains_key(&self, name: &str) -> (r: bool)
        ensures
            r == (env_lookup(env_view(*self), name@) is Some),
    {
        self.get(name).is_some()
    }

    /// The number of variables.
    pub fn len(&self) -> (r: usize)
        ensures
            r == env_view(*self).len(),
    {
        self.entries.len()
    }
}

/// The variables exported for a context, in this order: version, target
/// branch, dev branch, repository path, PR id, commit id; unset fields are
/// left out.
pub open spec fn context_env(c: HookContext) -> Seq<(Seq<char>, Seq<char>)> {
    opt_entry("MERGERS_VERSION"@, c.version) + opt_entry("MERGERS_TARGET_BRANCH"@, c.target_branch)
        + opt_entry("MERGERS_DEV_BRANCH"@, c.dev_branch) + opt_entry("MERGERS_REPO_PATH"@, c.repo_path)
        + match c.pr_id {
            Some(id) => seq![("MERGERS_PR_ID"@, decimal_int(id as int))],
            None => Seq::empty(),
        } + opt_entry("MERGERS_COMMIT_ID"@, c.commit_id)
}

/// One pair when the value is set.
pub open spec fn opt_entry(name: Seq<char>, v: Option<String>) -> Seq<(Seq<char>, Seq<char>)> {
    match v {
        Some(s) => seq![(name, s@)],
        None => Seq::empty(),
    }
}

fn push_opt(out: &mut Vec<EnvVar>, name: &str, v: &Option<String>)
    ensures
        final(out)@.map_values(|e: EnvVar| (e.name@, e.value@)) == old(out)@.map_values(|e: EnvVar| (e.name@, e.value@)) + opt_entry(name@, *v),
{
    match v {
        Some(s) => {
            let ghost before = out@;
            let e = EnvVar { name: name.to_owned(), value: s.clone() };
            out.push(e);
            proof {
                assert(out@.map_values(|e: EnvVar| (e.name@, e.value@)) =~= before.map_values(|e: EnvVar| (e.name@, e.value@)) + opt_entry(name@, *v));
            }
        },
        None => {
            proof {
                assert(out@.map_values(|e: EnvVar| (e.name@, e.value@)) =~= out@.map_values(|e: EnvVar| (e.name@, e.value@)) + opt_entry(name@, *v));
            }
        },
    }
}

impl HookContext {
    /// An empty context.
    pub fn new() -> (r: Self)
        ensures
            r.version is None && r.target_branch is None && r.dev_branch is None,
            r.repo_path is None && r.pr_id is None && r.commit_id is None,
    {
        HookContext::default()
    }

    /// Sets the version.
    pub fn with_version(self, version: &str) -> (r: Self)
        ensures
            r == (HookContext { version: r.version, ..self }),
            opt_text(r.version) == Some(version@),
    {
        HookContext { version: Some(version.to_owned()), ..self }
    }

    /// Sets the target branch.
    pub fn with_target_branch(self, branch: &str) -> (r: Self)
        ensures
            r == (HookContext { target_branch: r.target_branch, ..self }),
            opt_text(r.target_branch) == Some(branch@),
    {
        HookContext { target_branch: Some(branch.to_owned()), ..self }
    }

    /// Sets the dev branch.
    pub fn with_dev_branch(self, branch: &str) -> (r: Self)
        ensures
            r == (HookContext { dev_branch: r.dev_branch, ..self }),
            opt_text(r.dev_branch) == Some(branch@),
    {
        HookContext { dev_branch: Some(branch.to_owned()), ..self }
    }

    /// Sets the repository path.
    pub fn with_repo_path(self, path: &str) -> (r: Self)
        ensures
            r == (HookContext { repo_path: r.repo_path, ..self }),
            opt_text(r.repo_path) == Some(path@),
    {
        HookContext { repo_path: Some(path.to_owned()), ..self }
    }

    /// Sets the PR id.
    pub fn with_pr_id(self, pr_id: i32) -> (r: Self)
        ensures
            r == (HookContext { pr_id: Some(pr_id), ..self }),
    {
        HookContext { pr_id: Some(pr_id), ..self }
    }

    /// Sets the commit id.
    pub fn with_commit_id(self, commit_id: &str) -> (r: Self)
        ensures
            r == (HookContext { commit_id: r.commit_id, ..self }),
            opt_text(r.commit_id) == Some(commit_id@),
    {
        HookContext { commit_id: Some(commit_id.to_owned()), ..self }
    }

    /// The environment variables for this context.
    pub fn to_env_vars(&self) -> (r: EnvVars)
        ensures
            env_view(r) == context_env(*self),
    {
        let mut out: Vec<EnvVar> = Vec::new();
        push_opt(&mut out, "MERGERS_VERSION", &self.version);
        push_opt(&mut out, "MERGERS_TARGET_BRANCH", &self.target_branch);
        push_opt(&mut out, "MERGERS_DEV_BRANCH", &self.dev_branch);
        push_opt(&mut out, "MERGERS_REPO_PATH", &self.repo_path);
        match self.pr_id {
            Some(id) => {
                let ghost before = out@;
                let e = EnvVar { name: "MERGERS_PR_ID".to_owned(), value: i32_to_decimal(id) };
                out.push(e);
                proof {
                    assert(out@.map_values(|e: EnvVar| (e.name@, e.value@)) =~= before.map_values(|e: EnvVar| (e.name@, e.value@)) + seq![("MERGERS_PR_ID"@, decimal_int(id as int))]);
                }
            },
            None => {},
        }
        push_opt(&mut out, "MERGERS_COMMIT_ID", &self.commit_id);
        let r = EnvVars { entries: out };
        proof {
            assert(env_view(r) =~= context_env(*self));
        }
        r
    }
}

/// The text of an optional string.
pub open spec fn opt_text(o: Option<String>) -> Option<Seq<char>> {
    match o {
        Some(s) => Some(s@),
        None => None,
    }
}

// ==================== Results and outcomes ====================

/// The result of one hook command.
#[derive(Debug, Clone)]
pub struct HookCommandResult {
    pub command: String,
    pub success: bool,
    pub exit_code: Option<i32>,
    pub stdout: String,
    pub stderr: String,
}

impl HookCommandResult {
    /// Whether the command succeeded.
    pub fn is_success(&self) -> (r: bool)
        ensures
            r == self.success,
    {
        self.success
    }
}

/// The result of running a trigger's commands.
#[derive(Debug, Clone)]
pub struct HookResult {
    pub trigger: HookTrigger,
    pub command_results: Vec<HookCommandResult>,
    pub all_succeeded: bool,
}

/// The position of the first failed result, if any.
pub open spec fn first_failure_index(rs: Seq<HookCommandResult>) -> Option<int>
    decreases rs.len(),
{
    if rs.len() == 0 {
        None
    } else {
        match first_failure_index(rs.drop_last()) {
            Some(i) => Some(i),
            None => if !rs.last().success { Some(rs.len() - 1) } else { None },
        }
    }
}

proof fn lemma_first_failure_index(rs: Seq<HookCommandResult>)
    ensures
        match first_failure_index(rs) {
            Some(i) => 0 <= i < rs.len() && !rs[i].success && forall|k: int| 0 <= k < i ==> rs[k].success,
            None => forall|k: int| 0 <= k < rs.len() ==> rs[k].success,
        },
    decreases rs.len(),
{
    if rs.len() > 0 {
        lemma_first_failure_index(rs.drop_last());
        assert forall|k: int| 0 <= k < rs.len() - 1 implies rs.drop_last()[k] == rs[k] by {}
    }
}

impl HookResult {
    /// The first failed command result, if any.
    pub fn first_failure(&self) -> (r: Option<&HookCommandResult>)
        ensures
            match r {
                Some(f) => first_failure_index(self.command_results@) matches Some(i) && *f == self.command_results@[i],
                None => first_failure_index(self.command_results@) is None,
            },
    {
        let mut i: usize = 0;
        while i < self.command_results.len()
            invariant
                0 <= i <= self.command_results@.len(),
                first_failure_index(self.command_results@.subrange(0, i as int)) is None,
            decreases self.command_results@.len() - i,
        {
            proof {
                assert(self.command_results@.subrange(0, i as int + 1).drop_last() =~= self.command_results@.subrange(0, i as int));
            }
            if !self.command_results[i].success {
                proof {
                    lemma_first_failure_prefix(self.command_results@, i as int + 1, i as int);
                }
                return Some(&self.command_results[i]);
            }
            i = i + 1;
        }
        proof {
            assert(self.command_results@.subrange(0, i as int) =~= self.command_results@);
        }
        None
    }
}

proof fn lemma_first_failure_prefix(rs: Seq<HookCommandResult>, k: int, idx: int)
    requires
        0 < k <= rs.len(),
        first_failure_index(rs.subrange(0, k)) == Some(idx),
    ensures
        first_failure_index(rs) == Some(idx),
    decreases rs.len() - k,
{
    if k < rs.len() {
        assert(rs.subrange(0, k + 1).drop_last() =~= rs.subrange(0, k));
        lemma_first_failure_prefix(rs, k + 1, idx);
    } else {
        assert(rs.subrange(0, k) =~= rs);
    }
}

/// Progress of a hook run.
#[derive(Debug, Clone)]
pub enum HookProgress {
    Starting { trigger: HookTrigger, command_count: usize },
    CommandStarting { trigger: HookTrigger, command: String, index: usize },
    CommandCompleted { trigger: HookTrigger, command: String, success: bool, index: usize },
    Completed { trigger: HookTrigger, all_succeeded: bool },
}

/// Whether `events` is what the progress callback of a run of `trigger`
/// receives when the trigger has `count` commands and the run produced
/// `results`: nothing when there are no commands; otherwise the start, then
/// each command's start and completion in order, then the completion of the
/// run.
pub open spec fn progress_reported(events: Seq<HookProgress>, trigger: HookTrigger, count: nat, results: Seq<HookCommandResult>) -> bool {
    if count == 0 {
        events.len() == 0
    } else {
        &&& events.len() == 2 * results.len() + 2
        &&& events[0] == HookProgress::Starting { trigger, command_count: count as usize }
        &&& forall|k: int|
            0 <= k < results.len() ==> {
                &&& (#[trigger] events[1 + 2 * k]) matches HookProgress::CommandStarting { trigger: t, command: c, index: i }
                    && t == trigger && c@ == results[k].command@ && i == k
                &&& events[2 + 2 * k] matches HookProgress::CommandCompleted { trigger: t, command: c, success, index: i }
                    && t == trigger && c@ == results[k].command@ && success == results[k].success && i == k
            }
        &&& events[events.len() - 1] == HookProgress::Completed {
            trigger,
            all_succeeded: forall|k: int| 0 <= k < results.len() ==> (#[trigger] results[k]).success,
        }
    }
}

/// What a hook run means for the workflow.
#[derive(Debug, Clone)]
pub enum HookOutcome {
    /// All hooks succeeded or none are configured.
    Success,
    /// A hook failed; the workflow continues with a warning.
    ContinuedAfterFailure { trigger: HookTrigger, command: String, error: String },
    /// A hook failed; the workflow aborts.
    Abort { trigger: HookTrigger, command: String, error: String },
    /// Hooks were started asynchronously.
    Async,
}

impl HookOutcome {
    /// Whether the workflow should abort.
    pub fn should_abort(&self) -> (r: bool)
        ensures
            r == (*self is Abort),
    {
        match self {
            HookOutcome::Abort { .. } => true,
            _ => false,
        }
    }

    /// Whether the outcome is a success (including an asynchronous start).
    pub fn is_success(&self) -> (r: bool)
        ensures
            r == (*self is Success || *self is Async),
    {
        match self {
            HookOutcome::Success | HookOutcome::Async => true,
            _ => false,
        }
    }
}

/// The debug rendering of an optional exit code: `Some(1)` or `None`.
pub open spec fn exit_code_text(c: Option<i32>) -> Seq<char> {
    match c {
        Some(v) => "Some("@ + decimal_int(v as int) + ")"@,
        None => "None"@,
    }
}

/// The error reported for a failed command: its standard error, or a note
/// with its exit code when standard error is empty.
pub open spec fn failure_error(f: HookCommandResult) -> Seq<char> {
    if f.stderr@.len() == 0 {
        "Command failed with exit code "@ + exit_code_text(f.exit_code)
    } else {
        f.stderr@
    }
}

/// The failed command and its error for a failed run (`unknown` when no
/// result failed).
pub open spec fn failure_details(rs: Seq<HookCommandResult>) -> (Seq<char>, Seq<char>) {
    match first_failure_index(rs) {
        Some(i) => (rs[i].command@, failure_error(rs[i])),
        None => ("unknown"@, "Unknown error"@),
    }
}

fn exit_code_string(c: Option<i32>) -> (r: String)
    ensures
        r@ == exit_code_text(c),
{
    match c {
        Some(v) => {
            let mut s = "Some(".to_owned();
            s.append(i32_to_decimal(v).as_str());
            s.append(")");
            s
        },
        None => "None".to_owned(),
    }
}

/// The failed command and its error message for a run's results.
pub fn failure_of(result: &HookResult) -> (r: (String, String))
    ensures
        (r.0@, r.1@) == failure_details(result.command_results@),
{
    match result.first_failure() {
        Some(f) => {
            let error = if f.stderr.unicode_len() == 0 {
                concat2("Command failed with exit code ", exit_code_string(f.exit_code).as_str())
            } else {
                f.stderr.clone()
            };
            (f.command.clone(), error)
        },
        None => ("unknown".to_owned(), "Unknown error".to_owned()),
    }
}

/// The outcome of a trigger whose run ended with `result`.
pub open spec fn outcome_spec(config: HooksConfig, trigger: HookTrigger, rs: Seq<HookCommandResult>, all_ok: bool) -> (int, Seq<char>, Seq<char>) {
    if all_ok {
        (0, Seq::empty(), Seq::empty())
    } else {
        let (c, e) = failure_details(rs);
        match config_of(config, trigger).on_failure {
            Some(HookFailureMode::Abort) => (2, c, e),
            Some(HookFailureMode::Continue) => (1, c, e),
            None => if trigger_default_mode(trigger) == HookFailureMode::Abort { (2, c, e) } else { (1, c, e) },
        }
    }
}

/// The kind and details of an outcome: 0 success, 1 continued, 2 abort, 3 async.
pub open spec fn outcome_view(o: HookOutcome) -> (int, Seq<char>, Seq<char>) {
    match o {
        HookOutcome::Success => (0, Seq::empty(), Seq::empty()),
        HookOutcome::ContinuedAfterFailure { command, error, .. } => (1, command@, error@),
        HookOutcome::Abort { command, error, .. } => (2, command@, error@),
        HookOutcome::Async => (3, Seq::empty(), Seq::empty()),
    }
}

/// The trigger named in an outcome, if any.
pub open spec fn outcome_trigger(o: HookOutcome) -> Option<HookTrigger> {
    match o {
        HookOutcome::ContinuedAfterFailure { trigger, .. } => Some(trigger),
        HookOutcome::Abort { trigger, .. } => Some(trigger),
        _ => None,
    }
}

// ==================== Executor ====================

/// Decides the hook runs of a configuration.
pub struct HookExecutor {
    config: HooksConfig,
}

impl HookExecutor {
    /// An executor for a configuration.
    pub fn new(config: HooksConfig) -> (r: Self)
        ensures
            r.config_view() == config,
    {
        HookExecutor { config }
    }

    /// The configuration of this executor.
    pub closed spec fn config_view(&self) -> HooksConfig {
        self.config
    }

    /// The hooks configuration.
    pub fn config(&self) -> (r: &HooksConfig)
        ensures
            *r == self.config_view(),
    {
        &self.config
    }

    /// Whether the trigger has commands.
    pub fn has_hooks_for(&self, trigger: HookTrigger) -> (r: bool)
        ensures
            r == has_commands_for(self.config_view(), trigger),
    {
        self.config.has_hooks_for(trigger)
    }

    /// The next command of a run that has produced `done` so far: the next
    /// configured command, until all have run or one has failed.
    pub fn next_command(&self, trigger: HookTrigger, done: &[HookCommandResult]) -> (r: Option<String>)
        ensures
            ({
                let cmds = config_of(self.config_view(), trigger).commands@;
                let stop = done@.len() >= cmds.len() || exists|k: int| 0 <= k < done@.len() && !(#[trigger] done@[k]).success;
                match r {
                    None => stop,
                    Some(c) => !stop && c@ == cmds[done@.len() as int]@,
                }
            }),
    {
        let cmds = self.config.commands_for(trigger);
        let mut k: usize = 0;
        while k < done.len()
            invariant
                0 <= k <= done@.len(),
                forall|t: int| 0 <= t < k ==> (#[trigger] done@[t]).success,
            decreases done@.len() - k,
        {
            if !done[k].success {
                return None;
            }
            k = k + 1;
        }
        if done.len() >= cmds.len() {
            None
        } else {
            Some(cmds[done.len()].clone())
        }
    }

    /// The progress a run of `trigger` that produced `results` reports to
    /// its callback, in order.
    pub fn progress_events(&self, trigger: HookTrigger, results: &[HookCommandResult]) -> (r: Vec<HookProgress>)
        ensures
            progress_reported(r@, trigger, config_of(self.config_view(), trigger).commands@.len(), results@),
    {
        let count = self.config.commands_for(trigger).len();
        let mut events: Vec<HookProgress> = Vec::new();
        if count == 0 {
            return events;
        }
        events.push(HookProgress::Starting { trigger, command_count: count });
        let mut all = true;
        let mut k: usize = 0;
        while k < results.len()
            invariant
                0 <= k <= results@.len(),
                events@.len() == 2 * k + 1,
                events@[0] == (HookProgress::Starting { trigger, command_count: count }),
                all == forall|t: int| 0 <= t < k ==> (#[trigger] results@[t]).success,
                forall|t: int|
                    0 <= t < k ==> {
                        &&& (#[trigger] events@[1 + 2 * t]) matches HookProgress::CommandStarting { trigger: tr, command: c, index: i }
                            && tr == trigger && c@ == results@[t].command@ && i == t
                        &&& events@[2 + 2 * t] matches HookProgress::CommandCompleted { trigger: tr, command: c, success, index: i }
                            && tr == trigger && c@ == results@[t].command@ && success == results@[t].success && i == t
                    },
            decreases results@.len() - k,
        {
            let r = &results[k];
            let ghost before = events@;
            events.push(HookProgress::CommandStarting { trigger, command: r.command.clone(), index: k });
            events.push(HookProgress::CommandCompleted { trigger, command: r.command.clone(), success: r.success, index: k });
            if !r.success {
                all = false;
            }
            proof {
                assert forall|t: int| 0 <= t < k + 1 implies {
                    &&& (#[trigger] events@[1 + 2 * t]) matches HookProgress::CommandStarting { trigger: tr, command: c, index: i }
                        && tr == trigger && c@ == results@[t].command@ && i == t
                    &&& events@[2 + 2 * t] matches HookProgress::CommandCompleted { trigger: tr, command: c, success, index: i }
                        && tr == trigger && c@ == results@[t].command@ && success == results@[t].success && i == t
                } by {
                    if t < k {
                        assert(events@[1 + 2 * t] == before[1 + 2 * t]);
                        assert(events@[2 + 2 * t] == before[2 + 2 * t]);
                    }
                }
            }
            k = k + 1;
        }
        events.push(HookProgress::Completed { trigger, all_succeeded: all });
        proof {
            let n = results@.len() as int;
            assert forall|t: int| 0 <= t < n implies {
                &&& (#[trigger] events@[1 + 2 * t]) matches HookProgress::CommandStarting { trigger: tr, command: c, index: i }
                    && tr == trigger && c@ == results@[t].command@ && i == t
                &&& events@[2 + 2 * t] matches HookProgress::CommandCompleted { trigger: tr, command: c, success, index: i }
                    && tr == trigger && c@ == results@[t].command@ && success == results@[t].success && i == t
            } by {
                assert(2 + 2 * t < events@.len() - 1);
            }
        }
        events
    }

    /// The result of a run that produced `results`: every command ran and
    /// succeeded exactly when `all_succeeded` is set.
    pub fn finish(&self, trigger: HookTrigger, results: Vec<HookCommandResult>) -> (r: HookResult)
        ensures
            r.trigger == trigger,
            r.command_results == results,
            r.all_succeeded == forall|k: int| 0 <= k < results@.len() ==> (#[trigger] results@[k]).success,
    {
        let mut all = true;
        let mut k: usize = 0;
        while k < results.len()
            invariant
                0 <= k <= results@.len(),
                all == forall|t: int| 0 <= t < k ==> (#[trigger] results@[t]).success,
            decreases results@.len() - k,
        {
            if !results[k].success {
                all = false;
            }
            k = k + 1;
        }
        HookResult { trigger, command_results: results, all_succeeded: all }
    }

    /// The outcome known before running: `Success` when the trigger has no
    /// commands, `Async` when it runs asynchronously; `None` when the
    /// commands have to be run.
    pub fn outcome_before_run(&self, trigger: HookTrigger) -> (r: Option<HookOutcome>)
        ensures
            ({
                let c = config_of(self.config_view(), trigger);
                match r {
                    Some(HookOutcome::Success) => c.commands@.len() == 0,
                    Some(HookOutcome::Async) => c.commands@.len() > 0 && c.execution == HookExecutionMode::Async,
                    Some(_) => false,
                    None => c.commands@.len() > 0 && c.execution == HookExecutionMode::Blocking,
                }
            }),
    {
        let c = self.config.config_for(trigger);
        if !c.has_commands() {
            return Some(HookOutcome::Success);
        }
        match c.execution {
            HookExecutionMode::Async => Some(HookOutcome::Async),
            HookExecutionMode::Blocking => None,
        }
    }

    /// The outcome of a blocking run that ended with `result`: success when
    /// every command succeeded, otherwise the failed command and its error,
    /// aborting or continuing by the trigger's failure mode.
    pub fn outcome_of(&self, trigger: HookTrigger, result: &HookResult) -> (r: HookOutcome)
        ensures
            outcome_view(r) == outcome_spec(self.config_view(), trigger, result.command_results@, result.all_succeeded),
            r is Abort || r is ContinuedAfterFailure ==> outcome_trigger(r) == Some(trigger),
    {
        run_outcome(&self.config, trigger, result)
    }
}

/// The outcome of a blocking run of `trigger` under `config` that ended
/// with `result`.
pub fn run_outcome(config: &HooksConfig, trigger: HookTrigger, result: &HookResult) -> (r: HookOutcome)
    ensures
        outcome_view(r) == outcome_spec(*config, trigger, result.command_results@, result.all_succeeded),
        r is Abort || r is ContinuedAfterFailure ==> outcome_trigger(r) == Some(trigger),
{
    if result.all_succeeded {
        return HookOutcome::Success;
    }
    let (command, error) = failure_of(result);
    let mode = config.config_for(trigger).failure_mode(trigger);
    match mode {
        HookFailureMode::Abort => HookOutcome::Abort { trigger, command, error },
        HookFailureMode::Continue => HookOutcome::ContinuedAfterFailure { trigger, command, error },
    }
}

/// A run in which every command succeeded is a success. A failed run
/// honours the failure mode configured for its trigger: it aborts when that
/// mode is `Abort` and continues when it is `Continue`, whatever the
/// trigger's default; with no mode configured it aborts exactly for the
/// post-checkout and pre-cherry-pick hooks. A failed run names the first
/// failed command, with its error output when there is any.
pub proof fn law_failure_mode_honoured(
    config: HooksConfig,
    trigger: HookTrigger,
    rs: Seq<HookCommandResult>,
    all_ok: bool,
)
    ensures
        all_ok ==> outcome_spec(config, trigger, rs, all_ok).0 == 0,
        !all_ok && config_of(config, trigger).on_failure == Some(HookFailureMode::Abort) ==> outcome_spec(
            config,
            trigger,
            rs,
            all_ok,
        ).0 == 2,
        !all_ok && config_of(config, trigger).on_failure == Some(HookFailureMode::Continue) ==> outcome_spec(
            config,
            trigger,
            rs,
            all_ok,
        ).0 == 1,
        !all_ok && config_of(config, trigger).on_failure is None ==> (outcome_spec(config, trigger, rs, all_ok).0 == 2
            <==> (trigger == HookTrigger::PostCheckout || trigger == HookTrigger::PreCherryPick)),
        !all_ok ==> outcome_spec(config, trigger, rs, all_ok).0 == 1 || outcome_spec(config, trigger, rs, all_ok).0
            == 2,
        forall|i: int|
            !all_ok && 0 <= i < rs.len() && !(#[trigger] rs[i]).success && (forall|k: int| 0 <= k < i ==> rs[k].success)
                ==> {
                let o = outcome_spec(config, trigger, rs, all_ok);
                &&& o.1 == rs[i].command@
                &&& rs[i].stderr@.len() > 0 ==> o.2 == rs[i].stderr@
            },
{
    lemma_first_failure_index(rs);
    assert forall|i: int|
        !all_ok && 0 <= i < rs.len() && !(#[trigger] rs[i]).success && (forall|k: int| 0 <= k < i ==> rs[k].success)
        implies {
        let o = outcome_spec(config, trigger, rs, all_ok);
        &&& o.1 == rs[i].command@
        &&& rs[i].stderr@.len() > 0 ==> o.2 == rs[i].stderr@
    } by {
        match first_failure_index(rs) {
            Some(f) => {
                if f < i {
                    assert(rs[f].success);
                } else if i < f {
                    assert(rs[i].success);
                }
            },
            None => {
                assert(rs[i].success);
            },
        }
    }
}

} // verus!
