//! The rule store: rules keyed by identifier, in first-registration order.
//! Registering an identifier that is already present replaces that rule in
//! place; registering a new one appends it.

use vstd::prelude::*;

use crate::model::{Rule, RuleView};

verus! {

/// No two rules share an identifier.
pub open spec fn unique_ids(s: Seq<RuleView>) -> bool {
    forall|i: int, j: int| 0 <= i < j < s.len() ==> s[i].id != s[j].id
}

/// The position of the first rule with the given identifier, or -1.
pub open spec fn rule_index(s: Seq<RuleView>, id: Seq<char>) -> int
    decreases s.len(),
{
    if s.len() == 0 {
        -1
    } else if s[0].id == id {
        0
    } else {
        let t = rule_index(s.drop_first(), id);
        if t < 0 {
            -1
        } else {
            1 + t
        }
    }
}

/// What registering does to the stored sequence: replace in place, or append.
pub open spec fn register_spec(s: Seq<RuleView>, r: RuleView) -> Seq<RuleView> {
    if rule_index(s, r.id) >= 0 {
        s.update(rule_index(s, r.id), r)
    } else {
        s.push(r)
    }
}

pub proof fn lemma_rule_index_props(s: Seq<RuleView>, id: Seq<char>)
    ensures
        -1 <= rule_index(s, id) < s.len(),
        rule_index(s, id) >= 0 ==> s[rule_index(s, id)].id == id,
        rule_index(s, id) < 0 ==> forall|j: int| 0 <= j < s.len() ==> s[j].id != id,
    decreases s.len(),
{
    if s.len() > 0 && s[0].id != id {
        lemma_rule_index_props(s.drop_first(), id);
        if rule_index(s, id) < 0 {
            assert forall|j: int| 0 <= j < s.len() implies s[j].id != id by {
                if j > 0 {
                    assert(s.drop_first()[j - 1] == s[j]);
                }
            }
        }
    }
}

pub proof fn lemma_rule_index_of(s: Seq<RuleView>, id: Seq<char>, i: int)
    requires
        0 <= i < s.len(),
        s[i].id == id,
        forall|j: int| 0 <= j < i ==> s[j].id != id,
    ensures
        rule_index(s, id) == i,
    decreases s.len(),
{
    if i > 0 {
        assert(forall|j: int| 0 <= j < s.drop_first().len() ==> s.drop_first()[j] == s[j + 1]);
        lemma_rule_index_of(s.drop_first(), id, i - 1);
    }
}

/// Registering keeps identifiers unique.
pub proof fn lemma_register_preserves_unique(s: Seq<RuleView>, r: RuleView)
    requires
        unique_ids(s),
    ensures
        unique_ids(register_spec(s, r)),
{
    lemma_rule_index_props(s, r.id);
}

/// Replacement: registering `r1` and then `r2` under the same identifier
/// leaves exactly the store that registering `r2` alone would have left;
/// evaluation, a function of the store, then sees only `r2`.
pub proof fn lemma_register_replaces(s: Seq<RuleView>, r1: RuleView, r2: RuleView)
    requires
        unique_ids(s),
        r1.id == r2.id,
    ensures
        register_spec(register_spec(s, r1), r2) == register_spec(s, r2),
{
    lemma_rule_index_props(s, r1.id);
    let i = rule_index(s, r1.id);
    if i >= 0 {
        let s1 = s.update(i, r1);
        assert(forall|j: int| 0 <= j < i ==> s1[j].id != r2.id);
        lemma_rule_index_of(s1, r2.id, i);
        assert(s1.update(i, r2) =~= s.update(i, r2));
    } else {
        let s1 = s.push(r1);
        assert(forall|j: int| 0 <= j < s.len() ==> s1[j].id != r2.id);
        assert(s1[s.len() as int].id == r2.id);
        lemma_rule_index_of(s1, r2.id, s.len() as int);
        assert(s1.update(s.len() as int, r2) =~= s.push(r2));
    }
}

/// Idempotence: registering the same rule twice leaves the store, and so
/// every later evaluation, exactly as registering it once does.
pub proof fn lemma_register_idempotent(s: Seq<RuleView>, r: RuleView)
    requires
        unique_ids(s),
    ensures
        register_spec(register_spec(s, r), r) == register_spec(s, r),
{
    lemma_register_replaces(s, r, r);
}

/// The mutable store of rules, keyed by their identifiers.
pub struct RuleStore {
    items: Vec<Rule>,
}

impl View for RuleStore {
    type V = Seq<RuleView>;

    closed spec fn view(&self) -> Seq<RuleView> {
        self.items.deep_view()
    }
}

impl RuleStore {
    #[verifier::type_invariant]
    spec fn inv(&self) -> bool {
        unique_ids(self.items.deep_view())
    }

    /// An empty store.
    pub fn new() -> (r: RuleStore)
        ensures
            r@ == Seq::<RuleView>::empty(),
    {
        let items: Vec<Rule> = Vec::new();
        let r = RuleStore { items };
        proof {
            assert(r@ =~= Seq::<RuleView>::empty());
        }
        r
    }

    /// Inserts or replaces the rule keyed by its identifier.
    pub fn register(&mut self, rule: Rule)
        ensures
            final(self)@ == register_spec(old(self)@, rule@),
    {
        proof {
            use_type_invariant(&*self);
        }
        let ghost s0 = self.items.deep_view();
        let mut items: Vec<Rule> = Vec::new();
        std::mem::swap(&mut items, &mut self.items);
        let n = items.len();
        let mut i: usize = 0;
        while i < n && !(items[i].id == rule.id)
            invariant
                i <= n,
                n == items.len(),
                s0 == items.deep_view(),
                forall|j: int| 0 <= j < i ==> s0[j].id != rule.id@,
            decreases n - i,
        {
            proof {
                assert(items.deep_view()[i as int] == items@[i as int].deep_view());
            }
            i += 1;
        }
        proof {
            assert(i < n ==> items.deep_view()[i as int] == items@[i as int].deep_view());
        }
        if i < n {
            proof {
                lemma_rule_index_of(s0, rule.id@, i as int);
            }
            items.set(i, rule);
            proof {
                assert(items.deep_view() =~= s0.update(i as int, rule@));
            }
        } else {
            proof {
                lemma_rule_index_props(s0, rule.id@);
                if rule_index(s0, rule.id@) >= 0 {
                    assert(s0[rule_index(s0, rule.id@)].id == rule.id@);
                    assert(false);
                }
            }
            items.push(rule);
            proof {
                assert(items.deep_view() =~= s0.push(rule@));
            }
        }
        proof {
            lemma_register_preserves_unique(s0, rule@);
        }
        self.items = items;
    }

    /// The rules held, in stored order.
    pub fn rules(&self) -> (r: &Vec<Rule>)
        ensures
            r.deep_view() == self@,
    {
        &self.items
    }
}

} // verus!
