//! The engine's data model: rules, their conditions and actions, and the
//! ghost views that contracts are stated over.

use vstd::prelude::*;

use crate::strmap::StringMap;

verus! {

/// The closed set of rule categories.
#[derive(Clone, Copy, PartialEq, Eq, Structural, Debug)]
pub enum RuleCategory {
    SessionManagement,
    CodeStyle,
    Security,
    Versioning,
    Monitoring,
    Quality,
}

/// How a condition compares a context field against its value.
#[derive(Clone, Copy, PartialEq, Eq, Structural, Debug)]
pub enum ConditionOperator {
    Equals,
    NotEquals,
    Contains,
    GreaterThan,
    LessThan,
    VersionCheck,
    FileExists,
    CommandExists,
}

/// What kind of work an action describes; the engine never executes actions.
#[derive(Clone, Copy, PartialEq, Eq, Structural, Debug)]
pub enum ActionType {
    ExecuteCommand,
    CreateFile,
    ModifyFile,
    SendNotification,
    LogEvent,
    TriggerWorkflow,
}

/// One comparison test against one context field.
pub struct Condition {
    pub field: String,
    pub operator: ConditionOperator,
    pub value: String,
}

/// The view of a condition.
#[verifier::ext_equal]
pub ghost struct CondView {
    pub field: Seq<char>,
    pub operator: ConditionOperator,
    pub value: Seq<char>,
}

impl View for Condition {
    type V = CondView;

    open spec fn view(&self) -> CondView {
        CondView { field: self.field@, operator: self.operator, value: self.value@ }
    }
}

impl DeepView for Condition {
    type V = CondView;

    open spec fn deep_view(&self) -> CondView {
        self.view()
    }
}

/// A declarative instruction paired with its string parameters.
pub struct Action {
    pub action_type: ActionType,
    pub parameters: StringMap,
}

/// The view of an action.
#[verifier::ext_equal]
pub ghost struct ActionView {
    pub action_type: ActionType,
    pub parameters: Map<Seq<char>, Seq<char>>,
}

impl View for Action {
    type V = ActionView;

    open spec fn view(&self) -> ActionView {
        ActionView { action_type: self.action_type, parameters: self.parameters@ }
    }
}

impl DeepView for Action {
    type V = ActionView;

    open spec fn deep_view(&self) -> ActionView {
        self.view()
    }
}

/// A named, prioritized pairing of a condition list with an action list.
/// Timestamps are seconds since the Unix epoch. Priority is metadata:
/// evaluation returns actions in stored rule order and does not sort or
/// filter by priority.
pub struct Rule {
    pub id: String,
    pub name: String,
    pub description: String,
    pub category: RuleCategory,
    pub priority: u8,
    pub conditions: Vec<Condition>,
    pub actions: Vec<Action>,
    pub created_at: i64,
    pub updated_at: i64,
}

/// The view of a rule.
#[verifier::ext_equal]
pub ghost struct RuleView {
    pub id: Seq<char>,
    pub name: Seq<char>,
    pub description: Seq<char>,
    pub category: RuleCategory,
    pub priority: u8,
    pub conditions: Seq<CondView>,
    pub actions: Seq<ActionView>,
    pub created_at: i64,
    pub updated_at: i64,
}

impl View for Rule {
    type V = RuleView;

    open spec fn view(&self) -> RuleView {
        RuleView {
            id: self.id@,
            name: self.name@,
            description: self.description@,
            category: self.category,
            priority: self.priority,
            conditions: self.conditions.deep_view(),
            actions: self.actions.deep_view(),
            created_at: self.created_at,
            updated_at: self.updated_at,
        }
    }
}

impl DeepView for Rule {
    type V = RuleView;

    open spec fn deep_view(&self) -> RuleView {
        self.view()
    }
}

/// A copy of an action whose view equals the original's.
pub fn clone_action(a: &Action) -> (r: Action)
    ensures
        r@ == a@,
{
    Action { action_type: a.action_type, parameters: a.parameters.clone() }
}

/// A copy of a condition whose view equals the original's.
pub fn clone_condition(c: &Condition) -> (r: Condition)
    ensures
        r@ == c@,
{
    Condition { field: c.field.clone(), operator: c.operator, value: c.value.clone() }
}

/// A copy of a rule whose view equals the original's.
pub fn clone_rule(r: &Rule) -> (res: Rule)
    ensures
        res@ == r@,
{
    let mut conditions: Vec<Condition> = Vec::new();
    let n = r.conditions.len();
    let mut i: usize = 0;
    proof {
        assert(conditions.deep_view() =~= r.conditions.deep_view().take(0));
    }
    while i < n
        invariant
            i <= n,
            n == r.conditions@.len(),
            conditions.deep_view() == r.conditions.deep_view().take(i as int),
        decreases n - i,
    {
        let c = clone_condition(&r.conditions[i]);
        let ghost od = conditions.deep_view();
        conditions.push(c);
        proof {
            assert(r.conditions.deep_view()[i as int] == r.conditions@[i as int].deep_view());
            assert(conditions.deep_view() =~= od.push(c@));
            assert(od.push(c@) =~= r.conditions.deep_view().take(i as int + 1));
        }
        i += 1;
    }
    proof {
        assert(r.conditions.deep_view().take(n as int) =~= r.conditions.deep_view());
    }
    let mut actions: Vec<Action> = Vec::new();
    let m = r.actions.len();
    let mut j: usize = 0;
    proof {
        assert(actions.deep_view() =~= r.actions.deep_view().take(0));
    }
    while j < m
        invariant
            j <= m,
            m == r.actions@.len(),
            actions.deep_view() == r.actions.deep_view().take(j as int),
        decreases m - j,
    {
        let a = clone_action(&r.actions[j]);
        let ghost od = actions.deep_view();
        actions.push(a);
        proof {
            assert(r.actions.deep_view()[j as int] == r.actions@[j as int].deep_view());
            assert(actions.deep_view() =~= od.push(a@));
            assert(od.push(a@) =~= r.actions.deep_view().take(j as int + 1));
        }
        j += 1;
    }
    proof {
        assert(r.actions.deep_view().take(m as int) =~= r.actions.deep_view());
    }
    let res = Rule {
        id: r.id.clone(),
        name: r.name.clone(),
        description: r.description.clone(),
        category: r.category,
        priority: r.priority,
        conditions,
        actions,
        created_at: r.created_at,
        updated_at: r.updated_at,
    };
    proof {
        assert(res@ =~~= r@);
    }
    res
}

} // verus!
