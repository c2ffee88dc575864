//! A small in-memory rules engine: named rules with condition lists are
//! evaluated against a mutable string-keyed context, producing the list of
//! actions of every rule whose conditions all hold. Registration replaces
//! the rule with the same identifier; a context update sets one key; an
//! evaluation pass reads both stores and never fails. Filesystem and
//! command probes are outside work: the caller performs them and hands the
//! outcomes in (see `eval::probe_requests` and `eval::ProbeResults`).

pub mod clock;
pub mod decimal;
pub mod eval;
pub mod laws;
pub mod model;
pub mod store;
pub mod strmap;
pub mod textops;

use vstd::prelude::*;

use crate::eval::{actions_of, evaluate, ProbeResults};
use crate::model::{
    Action, ActionType, ActionView, CondView, Condition, ConditionOperator, Rule, RuleCategory,
    RuleView,
};
use crate::store::{register_spec, RuleStore};
use crate::strmap::StringMap;

verus! {

/// The rule seeded for the session-management category: a git version
/// check producing a log action.
pub open spec fn default_git_rule(now: i64) -> RuleView {
    RuleView {
        id: "session_git_check"@,
        name: "Git Version Check"@,
        description: "Checks that Git is at least 2.40"@,
        category: RuleCategory::SessionManagement,
        priority: 10,
        conditions: seq![
            CondView {
                field: "git_version"@,
                operator: ConditionOperator::VersionCheck,
                value: "2.40"@,
            },
        ],
        actions: seq![
            ActionView {
                action_type: ActionType::LogEvent,
                parameters: Map::<Seq<char>, Seq<char>>::empty().insert("level"@, "info"@).insert(
                    "message"@,
                    "Git version validated"@,
                ),
            },
        ],
        created_at: now,
        updated_at: now,
    }
}

/// The rule seeded for the code-style category: a file-extension check
/// triggering a formatter invocation.
pub open spec fn default_prettier_rule(now: i64) -> RuleView {
    RuleView {
        id: "code_style_prettier"@,
        name: "Prettier Auto-format"@,
        description: "Applies Prettier formatting automatically"@,
        category: RuleCategory::CodeStyle,
        priority: 8,
        conditions: seq![
            CondView {
                field: "file_extension"@,
                operator: ConditionOperator::Equals,
                value: ".ts"@,
            },
        ],
        actions: seq![
            ActionView {
                action_type: ActionType::ExecuteCommand,
                parameters: Map::<Seq<char>, Seq<char>>::empty().insert(
                    "command"@,
                    "prettier"@,
                ).insert("args"@, "--write"@),
            },
        ],
        created_at: now,
        updated_at: now,
    }
}

/// The engine: a rule store and a context store. The owner may guard each
/// behind its own lock; evaluation reads both.
pub struct RulesEngine {
    pub rules: RuleStore,
    pub context: StringMap,
}

impl RulesEngine {
    /// An engine with no rules and an empty context.
    pub fn new() -> (r: RulesEngine)
        ensures
            r.rules@ == Seq::<RuleView>::empty(),
            r.context@ == Map::<Seq<char>, Seq<char>>::empty(),
    {
        RulesEngine { rules: RuleStore::new(), context: StringMap::new() }
    }

    /// Inserts or replaces the rule keyed by its identifier. Registration
    /// always succeeds.
    pub fn register_rule(&mut self, rule: Rule) -> (r: Result<(), String>)
        ensures
            r is Ok,
            final(self).rules@ == register_spec(old(self).rules@, rule@),
            final(self).context == old(self).context,
    {
        self.rules.register(rule);
        Ok(())
    }

    /// Sets or overwrites the value for a context key; any pair is accepted.
    pub fn update_context(&mut self, key: String, value: String)
        ensures
            final(self).context@ == old(self).context@.insert(key@, value@),
            final(self).rules == old(self).rules,
    {
        self.context.set(key, value);
    }

    /// One evaluation pass over the stored rules against the current
    /// context and the given probe outcomes. Never fails.
    pub fn evaluate_rules(&self, probes: &ProbeResults) -> (r: Result<Vec<Action>, String>)
        ensures
            r is Ok,
            r matches Ok(v) ==> v.deep_view() == actions_of(self.rules@, self.context@, probes@),
    {
        Ok(evaluate(&self.rules, &self.context, probes))
    }

    /// Seeds the two default rules, both stamped with the given time.
    /// Always succeeds.
    pub fn load_default_rules_at(&mut self, now: i64) -> (r: Result<(), String>)
        ensures
            r is Ok,
            final(self).rules@ == register_spec(
                register_spec(old(self).rules@, default_git_rule(now)),
                default_prettier_rule(now),
            ),
            final(self).context == old(self).context,
    {
        let mut git_params = StringMap::new();
        git_params.set("level".to_owned(), "info".to_owned());
        git_params.set("message".to_owned(), "Git version validated".to_owned());
        let git_rule = Rule {
            id: "session_git_check".to_owned(),
            name: "Git Version Check".to_owned(),
            description: "Checks that Git is at least 2.40".to_owned(),
            category: RuleCategory::SessionManagement,
            priority: 10,
            conditions: vec![
                Condition {
                    field: "git_version".to_owned(),
                    operator: ConditionOperator::VersionCheck,
                    value: "2.40".to_owned(),
                },
            ],
            actions: vec![
                Action { action_type: ActionType::LogEvent, parameters: git_params },
            ],
            created_at: now,
            updated_at: now,
        };
        proof {
            assert(git_rule@ =~~= default_git_rule(now));
        }
        let r1 = self.register_rule(git_rule);
        if r1.is_err() {
            return r1;
        }
        let mut fmt_params = StringMap::new();
        fmt_params.set("command".to_owned(), "prettier".to_owned());
        fmt_params.set("args".to_owned(), "--write".to_owned());
        let fmt_rule = Rule {
            id: "code_style_prettier".to_owned(),
            name: "Prettier Auto-format".to_owned(),
            description: "Applies Prettier formatting automatically".to_owned(),
            category: RuleCategory::CodeStyle,
            priority: 8,
            conditions: vec![
                Condition {
                    field: "file_extension".to_owned(),
                    operator: ConditionOperator::Equals,
                    value: ".ts".to_owned(),
                },
            ],
            actions: vec![
                Action { action_type: ActionType::ExecuteCommand, parameters: fmt_params },
            ],
            created_at: now,
            updated_at: now,
        };
        proof {
            assert(fmt_rule@ =~~= default_prettier_rule(now));
        }
        self.register_rule(fmt_rule)
    }

    /// Seeds the two default rules, stamped with the current time.
    /// Always succeeds.
    pub fn load_default_rules(&mut self) -> (r: Result<(), String>)
        ensures
            r is Ok,
            exists|t: i64|
                final(self).rules@ == register_spec(
                    #[trigger] register_spec(old(self).rules@, default_git_rule(t)),
                    default_prettier_rule(t),
                ),
            final(self).context == old(self).context,
    {
        let t = clock::now_seconds();
        let r = self.load_default_rules_at(t);
        proof {
            assert(self.rules@ == register_spec(
                register_spec(old(self).rules@, default_git_rule(t)),
                default_prettier_rule(t),
            ));
        }
        r
    }
}

} // verus!
