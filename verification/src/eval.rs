//! The evaluator: which conditions hold against a context snapshot, which
//! rules fire, and the actions an evaluation pass collects. Filesystem and
//! executable probes are blocking outside work, so the evaluator takes
//! their outcomes as an argument: the caller probes first and hands in the
//! paths and commands that were found present; everything absent, and every
//! failed probe, counts as false.

use vstd::prelude::*;

use crate::decimal::{dec_gt, dec_gt_exec, dec_lt, dec_lt_exec};
use crate::model::{
    clone_action, Action, ActionView, CondView, Condition, ConditionOperator, Rule, RuleView,
};
use crate::store::RuleStore;
use crate::strmap::{lookup_or_empty, StringMap};
use crate::textops::{contains_substr, lex_ge, seq_has, str_contains, str_lex_lt, string_vec_contains};

verus! {

/// Probe outcomes an evaluation pass works from: the paths found to exist
/// and the commands found on the search path.
pub struct ProbeResults {
    pub files_present: Vec<String>,
    pub commands_present: Vec<String>,
}

/// The view of probe outcomes.
#[verifier::ext_equal]
pub ghost struct ProbeView {
    pub files: Seq<Seq<char>>,
    pub commands: Seq<Seq<char>>,
}

impl View for ProbeResults {
    type V = ProbeView;

    open spec fn view(&self) -> ProbeView {
        ProbeView {
            files: self.files_present.deep_view(),
            commands: self.commands_present.deep_view(),
        }
    }
}

impl ProbeResults {
    /// Probe outcomes with nothing present.
    pub fn none() -> (r: ProbeResults)
        ensures
            r@.files == Seq::<Seq<char>>::empty(),
            r@.commands == Seq::<Seq<char>>::empty(),
    {
        let r = ProbeResults { files_present: Vec::new(), commands_present: Vec::new() };
        proof {
            assert(r@.files =~= Seq::<Seq<char>>::empty());
            assert(r@.commands =~= Seq::<Seq<char>>::empty());
        }
        r
    }
}

/// Whether one condition holds against a context and probe outcomes.
/// A field absent from the context reads as the empty string.
pub open spec fn cond_holds(c: CondView, ctx: Map<Seq<char>, Seq<char>>, probes: ProbeView) -> bool {
    let ctx_val = lookup_or_empty(ctx, c.field);
    match c.operator {
        ConditionOperator::Equals => ctx_val == c.value,
        ConditionOperator::NotEquals => ctx_val != c.value,
        ConditionOperator::Contains => contains_substr(ctx_val, c.value),
        ConditionOperator::GreaterThan => dec_gt(ctx_val, c.value),
        ConditionOperator::LessThan => dec_lt(ctx_val, c.value),
        ConditionOperator::VersionCheck => lex_ge(ctx_val, c.value),
        ConditionOperator::FileExists => seq_has(probes.files, c.value),
        ConditionOperator::CommandExists => seq_has(probes.commands, c.value),
    }
}

/// Whether every condition of a list holds: the vacuous AND over an empty
/// list is true, so a rule without conditions always fires.
pub open spec fn conds_hold(
    cs: Seq<CondView>,
    ctx: Map<Seq<char>, Seq<char>>,
    probes: ProbeView,
) -> bool {
    forall|i: int| 0 <= i < cs.len() ==> cond_holds(#[trigger] cs[i], ctx, probes)
}

/// The actions an evaluation pass returns: for each rule whose conditions
/// all hold, its actions in declared order, rules in stored order.
pub open spec fn actions_of(
    rules: Seq<RuleView>,
    ctx: Map<Seq<char>, Seq<char>>,
    probes: ProbeView,
) -> Seq<ActionView>
    decreases rules.len(),
{
    if rules.len() == 0 {
        Seq::empty()
    } else {
        actions_of(rules.drop_last(), ctx, probes) + (if conds_hold(
            rules.last().conditions,
            ctx,
            probes,
        ) {
            rules.last().actions
        } else {
            Seq::empty()
        })
    }
}

/// Whether one condition holds.
pub fn evaluate_condition(c: &Condition, context: &StringMap, probes: &ProbeResults) -> (r: bool)
    ensures
        r == cond_holds(c@, context@, probes@),
{
    let ctx_val = context.get_or_empty(&c.field);
    match c.operator {
        ConditionOperator::Equals => ctx_val == c.value,
        ConditionOperator::NotEquals => !(ctx_val == c.value),
        ConditionOperator::Contains => str_contains(&ctx_val, &c.value),
        ConditionOperator::GreaterThan => dec_gt_exec(&ctx_val, &c.value),
        ConditionOperator::LessThan => dec_lt_exec(&ctx_val, &c.value),
        ConditionOperator::VersionCheck => !str_lex_lt(&ctx_val, &c.value),
        ConditionOperator::FileExists => string_vec_contains(&probes.files_present, &c.value),
        ConditionOperator::CommandExists => string_vec_contains(
            &probes.commands_present,
            &c.value,
        ),
    }
}

/// Whether every condition of the list holds; stops at the first failure.
pub fn evaluate_conditions(
    conditions: &Vec<Condition>,
    context: &StringMap,
    probes: &ProbeResults,
) -> (r: bool)
    ensures
        r == conds_hold(conditions.deep_view(), context@, probes@),
{
    let n = conditions.len();
    let mut i: usize = 0;
    while i < n
        invariant
            i <= n,
            n == conditions@.len(),
            forall|j: int|
                0 <= j < i ==> cond_holds(
                    #[trigger] conditions.deep_view()[j],
                    context@,
                    probes@,
                ),
        decreases n - i,
    {
        let ok = evaluate_condition(&conditions[i], context, probes);
        proof {
            assert(conditions.deep_view()[i as int] == conditions@[i as int].deep_view());
        }
        if !ok {
            return false;
        }
        i += 1;
    }
    true
}

/// One full evaluation pass: reads the rules and the context snapshot and
/// collects the actions of every rule whose conditions hold.
pub fn evaluate(rules: &RuleStore, context: &StringMap, probes: &ProbeResults) -> (r: Vec<Action>)
    ensures
        r.deep_view() == actions_of(rules@, context@, probes@),
{
    let items = rules.rules();
    let mut out: Vec<Action> = Vec::new();
    let n = items.len();
    let mut i: usize = 0;
    proof {
        assert(items.deep_view().take(0) =~= Seq::<RuleView>::empty());
        assert(out.deep_view() =~= Seq::<ActionView>::empty());
    }
    while i < n
        invariant
            i <= n,
            n == items@.len(),
            items.deep_view() == rules@,
            out.deep_view() == actions_of(items.deep_view().take(i as int), context@, probes@),
        decreases n - i,
    {
        proof {
            assert(items.deep_view()[i as int] == items@[i as int].deep_view());
        }
        let fired = evaluate_conditions(&items[i].conditions, context, probes);
        if fired {
            let m = items[i].actions.len();
            let mut j: usize = 0;
            while j < m
                invariant
                    j <= m,
                    i < n,
                    n == items@.len(),
                    m == items@[i as int].actions@.len(),
                    items.deep_view() == rules@,
                    out.deep_view() == actions_of(
                        items.deep_view().take(i as int),
                        context@,
                        probes@,
                    ) + items@[i as int].actions.deep_view().take(j as int),
                decreases m - j,
            {
                let a = clone_action(&items[i].actions[j]);
                let ghost od = out.deep_view();
                out.push(a);
                proof {
                    assert(items@[i as int].actions.deep_view()[j as int]
                        == items@[i as int].actions@[j as int].deep_view());
                    assert(a@ == items@[i as int].actions@[j as int].deep_view());
                    assert(out.deep_view() =~= od.push(a@));
                    assert(od.push(a@) =~= actions_of(
                        items.deep_view().take(i as int),
                        context@,
                        probes@,
                    ) + items@[i as int].actions.deep_view().take(j as int + 1));
                }
                j += 1;
            }
            proof {
                assert(items@[i as int].actions.deep_view().take(m as int)
                    =~= items@[i as int].actions.deep_view());
            }
        }
        proof {
            let s = items.deep_view();
            assert(s.take(i as int + 1).drop_last() =~= s.take(i as int));
            assert(s.take(i as int + 1).last() == s[i as int]);
            if !conds_hold(s[i as int].conditions, context@, probes@) {
                assert(out.deep_view() =~= actions_of(s.take(i as int), context@, probes@)
                    + Seq::<ActionView>::empty());
            }
            assert(out.deep_view() == actions_of(s.take(i as int + 1), context@, probes@));
        }
        i += 1;
    }
    proof {
        assert(items.deep_view().take(n as int) =~= items.deep_view());
    }
    out
}

/// The condition values of every condition of the given operator, over the
/// rules in stored order: the probes an evaluation pass will need.
pub open spec fn probe_values_of_conds(cs: Seq<CondView>, op: ConditionOperator) -> Seq<Seq<char>>
    decreases cs.len(),
{
    if cs.len() == 0 {
        Seq::empty()
    } else {
        probe_values_of_conds(cs.drop_last(), op) + (if cs.last().operator == op {
            seq![cs.last().value]
        } else {
            Seq::empty()
        })
    }
}

/// The probe values of the given operator over all rules, in stored order.
pub open spec fn probe_values_of_rules(rs: Seq<RuleView>, op: ConditionOperator) -> Seq<Seq<char>>
    decreases rs.len(),
{
    if rs.len() == 0 {
        Seq::empty()
    } else {
        probe_values_of_rules(rs.drop_last(), op) + probe_values_of_conds(
            rs.last().conditions,
            op,
        )
    }
}

fn collect_probe_values(items: &Vec<Rule>, op: ConditionOperator) -> (r: Vec<String>)
    ensures
        r.deep_view() == probe_values_of_rules(items.deep_view(), op),
{
    let mut out: Vec<String> = Vec::new();
    let n = items.len();
    let mut i: usize = 0;
    proof {
        assert(items.deep_view().take(0) =~= Seq::<RuleView>::empty());
        assert(out.deep_view() =~= Seq::<Seq<char>>::empty());
    }
    while i < n
        invariant
            i <= n,
            n == items@.len(),
            out.deep_view() == probe_values_of_rules(items.deep_view().take(i as int), op),
        decreases n - i,
    {
        proof {
            assert(items.deep_view()[i as int] == items@[i as int].deep_view());
        }
        let cs = &items[i].conditions;
        let m = cs.len();
        let mut j: usize = 0;
        while j < m
            invariant
                j <= m,
                i < n,
                n == items@.len(),
                m == items@[i as int].conditions@.len(),
                cs == &items@[i as int].conditions,
                out.deep_view() == probe_values_of_rules(items.deep_view().take(i as int), op)
                    + probe_values_of_conds(
                    items@[i as int].conditions.deep_view().take(j as int),
                    op,
                ),
            decreases m - j,
        {
            proof {
                assert(cs.deep_view()[j as int] == cs@[j as int].deep_view());
                let t = cs.deep_view().take(j as int + 1);
                assert(t.drop_last() =~= cs.deep_view().take(j as int));
                assert(t.last() == cs.deep_view()[j as int]);
            }
            if cs[j].operator == op {
                let v = cs[j].value.clone();
                let ghost od = out.deep_view();
                out.push(v);
                proof {
                    assert(v@ == cs.deep_view()[j as int].value);
                    assert(out.deep_view() =~= od.push(v@));
                    assert(od.push(v@) =~= probe_values_of_rules(
                        items.deep_view().take(i as int),
                        op,
                    ) + (probe_values_of_conds(
                        items@[i as int].conditions.deep_view().take(j as int),
                        op,
                    ) + seq![cs.deep_view()[j as int].value]));
                }
            } else {
                proof {
                    assert(out.deep_view() =~= probe_values_of_rules(
                        items.deep_view().take(i as int),
                        op,
                    ) + (probe_values_of_conds(
                        items@[i as int].conditions.deep_view().take(j as int),
                        op,
                    ) + Seq::<Seq<char>>::empty()));
                }
            }
            j += 1;
        }
        proof {
            let s = items.deep_view();
            assert(items@[i as int].conditions.deep_view().take(m as int)
                =~= items@[i as int].conditions.deep_view());
            assert(s.take(i as int + 1).drop_last() =~= s.take(i as int));
            assert(s.take(i as int + 1).last() == s[i as int]);
        }
        i += 1;
    }
    proof {
        assert(items.deep_view().take(n as int) =~= items.deep_view());
    }
    out
}

/// The file paths and command names the stored rules will probe: the
/// values of every FileExists condition, and of every CommandExists
/// condition, in stored order.
pub fn probe_requests(rules: &RuleStore) -> (r: (Vec<String>, Vec<String>))
    ensures
        r.0.deep_view() == probe_values_of_rules(rules@, ConditionOperator::FileExists),
        r.1.deep_view() == probe_values_of_rules(rules@, ConditionOperator::CommandExists),
{
    let items = rules.rules();
    let files = collect_probe_values(items, ConditionOperator::FileExists);
    let commands = collect_probe_values(items, ConditionOperator::CommandExists);
    (files, commands)
}

} // verus!
