//! Engine-wide laws, stated over the same spec functions the public
//! contracts use. The replacement and idempotence laws of registration
//! stand beside the store, in `store`.

use vstd::prelude::*;

use crate::decimal::{dec_gt, dec_lt, dec_num, dec_scale, parse_dec, pow10};
use crate::eval::{cond_holds, conds_hold, ProbeView};
use crate::model::{CondView, ConditionOperator};

verus! {

/// A rule with an empty condition list always fires: the AND over no
/// conditions is vacuously true, whatever the context and probes hold.
pub proof fn lemma_empty_conditions_fire(
    cs: Seq<CondView>,
    ctx: Map<Seq<char>, Seq<char>>,
    probes: ProbeView,
)
    requires
        cs.len() == 0,
    ensures
        conds_hold(cs, ctx, probes),
{
}

/// Equals, NotEquals and Contains read a field that is absent from the
/// context exactly as if the context held the empty string for it.
pub proof fn lemma_absent_field_reads_empty(
    c: CondView,
    ctx: Map<Seq<char>, Seq<char>>,
    probes: ProbeView,
)
    requires
        !ctx.contains_key(c.field),
        c.operator == ConditionOperator::Equals || c.operator == ConditionOperator::NotEquals
            || c.operator == ConditionOperator::Contains,
    ensures
        cond_holds(c, ctx, probes) == cond_holds(
            c,
            ctx.insert(c.field, Seq::<char>::empty()),
            probes,
        ),
{
}

/// A side of GreaterThan or LessThan that is not a decimal string never
/// raises an error: it counts as exactly zero, on the left ...
pub proof fn lemma_nonnumeric_left_counts_as_zero(a: Seq<char>, b: Seq<char>)
    requires
        parse_dec(a) is None,
    ensures
        dec_num(a) == 0,
        dec_scale(a) == 0,
        dec_gt(a, b) == (dec_num(b) < 0),
        dec_lt(a, b) == (dec_num(b) > 0),
{
    assert(pow10(0) == 1);
}

/// ... and on the right.
pub proof fn lemma_nonnumeric_right_counts_as_zero(a: Seq<char>, b: Seq<char>)
    requires
        parse_dec(b) is None,
    ensures
        dec_num(b) == 0,
        dec_scale(b) == 0,
        dec_gt(a, b) == (dec_num(a) > 0),
        dec_lt(a, b) == (dec_num(a) < 0),
{
    assert(pow10(0) == 1);
}

/// Context updates under distinct keys are all retained: updating one key
/// neither removes nor changes any other, so no interleaving of updates
/// loses a pair.
pub proof fn lemma_update_keeps_other_keys(
    m: Map<Seq<char>, Seq<char>>,
    k1: Seq<char>,
    v1: Seq<char>,
    k2: Seq<char>,
)
    requires
        k1 != k2,
        m.contains_key(k2),
    ensures
        m.insert(k1, v1).contains_key(k2),
        m.insert(k1, v1)[k2] == m[k2],
        m.insert(k1, v1).contains_key(k1),
        m.insert(k1, v1)[k1] == v1,
{
}

} // verus!
