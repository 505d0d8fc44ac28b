//! Positions and valuations derived from deals.

use vstd::arithmetic::power::pow;
use vstd::prelude::*;

use vstd::string::StringExecFns;

use crate::dates::Date;
use crate::decimal::{
    checked_difference, checked_product, checked_quotient, checked_sum, is_negative,
    add_is_exact, lemma_compare_zero, lemma_small_sum_is_exact, numerator, sum_scale, two_to_64, units, zero_parts, Decimal,
    DecimalParts,
};
use crate::error::Error;
use crate::instruments::{spec_clearing, spec_id, spec_maturity, ClearingStatus, Instrument};
use crate::text::{
    lemma_text_lt_irreflexive, lemma_text_lt_total, lemma_text_lt_transitive, text_less, text_lt,
};
use crate::trades::{spec_signed_quantity, BuySell, Deal};

verus! {

/// Net signed quantity of the deals in instrument `id`: their signed
/// quantities added in deal order with `rust_decimal`'s addition, starting
/// from zero; `None` if an addition overflows.
pub open spec fn net_quantity(deals: Seq<Deal>, id: Seq<char>) -> Option<DecimalParts>
    decreases deals.len(),
{
    if deals.len() == 0 {
        Some(zero_parts())
    } else {
        let prev = net_quantity(deals.drop_last(), id);
        let d = deals.last();
        if d.instrument_id@ == id {
            match prev {
                Some(acc) => checked_sum(acc, spec_signed_quantity(d)),
                None => None,
            }
        } else {
            prev
        }
    }
}

/// Net signed cost of the deals in instrument `id`: each signed quantity
/// times its price, added in deal order; `None` if an operation overflows.
pub open spec fn net_cost(deals: Seq<Deal>, id: Seq<char>) -> Option<DecimalParts>
    decreases deals.len(),
{
    if deals.len() == 0 {
        Some(zero_parts())
    } else {
        let prev = net_cost(deals.drop_last(), id);
        let d = deals.last();
        if d.instrument_id@ == id {
            match (prev, checked_product(spec_signed_quantity(d), d.price@)) {
                (Some(acc), Some(c)) => checked_sum(acc, c),
                _ => None,
            }
        } else {
            prev
        }
    }
}

/// The sum of `f` over the deals of `s`.
pub open spec fn deal_sum(s: Seq<Deal>, f: spec_fn(Deal) -> int) -> int
    decreases s.len(),
{
    if s.len() == 0 {
        0
    } else {
        deal_sum(s.drop_last(), f) + f(s.last())
    }
}

/// The signed quantity of deal `d` in units of `10^-28`, if it is in
/// instrument `id`; zero otherwise.
pub open spec fn quantity_term(d: Deal, id: Seq<char>) -> int {
    if d.instrument_id@ == id {
        units(spec_signed_quantity(d))
    } else {
        0
    }
}

/// The exact net signed quantity of `id` in `deals`, in units of `10^-28`.
pub open spec fn quantity_units(deals: Seq<Deal>, id: Seq<char>) -> int {
    deal_sum(deals, |d: Deal| quantity_term(d, id))
}

/// The sum of the absolute signed quantities of `id` in `deals`, in units
/// of `10^-28`.
pub open spec fn quantity_magnitude(deals: Seq<Deal>, id: Seq<char>) -> int {
    deal_sum(deals, |d: Deal| if quantity_term(d, id) < 0 { -quantity_term(d, id) } else { quantity_term(d, id) })
}

/// The quantities of `id` in `deals` are small at scale `bound_scale` (at
/// most 19): each has at most `bound_scale` decimal places, and together
/// they stay below `2^64` units of `10^-bound_scale` (for whole lots,
/// about `1.8e19` lots). Then every running sum of them, in any order,
/// takes an exact path of decimal addition.
pub open spec fn small_quantities(deals: Seq<Deal>, id: Seq<char>, bound_scale: int) -> bool {
    &&& 0 <= bound_scale <= 19
    &&& quantity_magnitude(deals, id) < two_to_64() * pow(10, (28 - bound_scale) as nat)
    &&& forall|k: int|
        0 <= k < deals.len() && (#[trigger] deals[k]).instrument_id@ == id ==> 0 <= deals[k].quantity@.2
            <= bound_scale
}

/// The net quantity of `id` in `deals` is the exact sum of the signed
/// quantities (no rounding happened), at a scale of at most `bound_scale`.
pub open spec fn net_exact(deals: Seq<Deal>, id: Seq<char>, bound_scale: int) -> bool {
    net_quantity(deals, id) matches Some(q) && units(q) == quantity_units(deals, id) && 0 <= q.1 && 0
        <= q.2 <= bound_scale && (same_quantity_scale(deals, id, bound_scale) && traded(deals, id) ==> q.2
        == bound_scale)
}

/// Every deal of `id` in `deals` has a quantity with exactly `scale`
/// decimal places.
pub open spec fn same_quantity_scale(deals: Seq<Deal>, id: Seq<char>, scale: int) -> bool {
    forall|k: int|
        0 <= k < deals.len() && (#[trigger] deals[k]).instrument_id@ == id ==> deals[k].quantity@.2 == scale
}

/// The signed cost (signed quantity times price) of deal `d` in units of
/// `10^-28`, if it is in instrument `id` and the product is defined; zero
/// otherwise.
pub open spec fn cost_term(d: Deal, id: Seq<char>) -> int {
    if d.instrument_id@ == id {
        match checked_product(spec_signed_quantity(d), d.price@) {
            Some(c) => units(c),
            None => 0,
        }
    } else {
        0
    }
}

/// The exact net signed cost of `id` in `deals`, in units of `10^-28`.
pub open spec fn cost_units(deals: Seq<Deal>, id: Seq<char>) -> int {
    deal_sum(deals, |d: Deal| cost_term(d, id))
}

/// The sum of the absolute signed costs of `id` in `deals`, in units of
/// `10^-28`.
pub open spec fn cost_magnitude(deals: Seq<Deal>, id: Seq<char>) -> int {
    deal_sum(deals, |d: Deal| if cost_term(d, id) < 0 { -cost_term(d, id) } else { cost_term(d, id) })
}

/// The cost of deal `d` is defined and has at most `bound_scale` decimal
/// places.
pub open spec fn cost_within(d: Deal, bound_scale: int) -> bool {
    checked_product(spec_signed_quantity(d), d.price@) matches Some(c) && 0 <= c.1 && 0 <= c.2 <= bound_scale
}

/// The costs of `id` in `deals` are small at scale `bound_scale` (at most
/// 19): each is defined with at most `bound_scale` decimal places, and
/// together they stay below `2^64` units of `10^-bound_scale`. Then every
/// running sum of them, in any order, takes an exact path of decimal
/// addition.
pub open spec fn small_costs(deals: Seq<Deal>, id: Seq<char>, bound_scale: int) -> bool {
    &&& 0 <= bound_scale <= 19
    &&& cost_magnitude(deals, id) < two_to_64() * pow(10, (28 - bound_scale) as nat)
    &&& forall|k: int|
        0 <= k < deals.len() && (#[trigger] deals[k]).instrument_id@ == id ==> cost_within(deals[k], bound_scale)
}

/// Every deal of `id` in `deals` has a defined cost with exactly `scale`
/// decimal places.
pub open spec fn same_cost_scale(deals: Seq<Deal>, id: Seq<char>, scale: int) -> bool {
    forall|k: int|
        0 <= k < deals.len() && (#[trigger] deals[k]).instrument_id@ == id ==> (checked_product(
            spec_signed_quantity(deals[k]),
            deals[k].price@,
        ) matches Some(c) && c.2 == scale)
}

/// The net cost of `id` in `deals` is the exact sum of the signed costs (no
/// rounding happened), at a scale of at most `bound_scale`, and exactly
/// that scale when every cost has it.
pub open spec fn cost_exact(deals: Seq<Deal>, id: Seq<char>, bound_scale: int) -> bool {
    net_cost(deals, id) matches Some(c) && units(c) == cost_units(deals, id) && 0 <= c.1 && 0 <= c.2
        <= bound_scale && (same_cost_scale(deals, id, bound_scale) && traded(deals, id) ==> c.2 == bound_scale)
}

proof fn lemma_deal_sum_remove(s: Seq<Deal>, f: spec_fn(Deal) -> int, j: int)
    requires
        0 <= j < s.len(),
    ensures
        deal_sum(s, f) == deal_sum(s.remove(j), f) + f(s[j]),
    decreases s.len(),
{
    if j < s.len() - 1 {
        lemma_deal_sum_remove(s.drop_last(), f, j);
        assert(s.remove(j).drop_last() =~= s.drop_last().remove(j));
        assert(s.remove(j).last() == s.last());
    } else {
        assert(s.remove(j) =~= s.drop_last());
    }
}

proof fn lemma_deal_sum_reorder(s1: Seq<Deal>, s2: Seq<Deal>, f: spec_fn(Deal) -> int)
    requires
        s1.to_multiset() == s2.to_multiset(),
    ensures
        deal_sum(s1, f) == deal_sum(s2, f),
    decreases s2.len(),
{
    broadcast use vstd::seq_lib::group_to_multiset_ensures, vstd::multiset::group_multiset_axioms;

    if s2.len() == 0 {
        assert(s1.to_multiset().len() == 0);
        assert(s1.len() == 0);
    } else {
        let x = s2.last();
        let rest = s2.drop_last();
        assert(rest.push(x) =~= s2);
        assert(s2.to_multiset() =~= rest.to_multiset().insert(x));
        assert(s2.to_multiset().count(x) > 0);
        assert(s1.contains(x));
        let j = choose|j: int| 0 <= j < s1.len() && s1[j] == x;
        assert(s1.remove(j).to_multiset() =~= s1.to_multiset().remove(x));
        assert(rest.to_multiset() =~= s2.to_multiset().remove(x));
        lemma_deal_sum_reorder(s1.remove(j), rest, f);
        lemma_deal_sum_remove(s1, f, j);
    }
}

proof fn lemma_quantity_within_magnitude(deals: Seq<Deal>, id: Seq<char>)
    ensures
        -quantity_magnitude(deals, id) <= quantity_units(deals, id) <= quantity_magnitude(deals, id),
    decreases deals.len(),
{
    if deals.len() > 0 {
        lemma_quantity_within_magnitude(deals.drop_last(), id);
    }
}

/// One more deal: the sums over `next` are those over `prefix` plus the
/// last deal's term, and small quantities stay small in `prefix`.
proof fn lemma_sums_step(prefix: Seq<Deal>, next: Seq<Deal>, x: Seq<char>)
    requires
        next.len() == prefix.len() + 1,
        forall|k: int| 0 <= k < prefix.len() ==> #[trigger] next[k] == prefix[k],
    ensures
        quantity_units(next, x) == quantity_units(prefix, x) + quantity_term(next.last(), x),
        quantity_magnitude(next, x) == quantity_magnitude(prefix, x) + (if quantity_term(next.last(), x) < 0 {
            -quantity_term(next.last(), x)
        } else {
            quantity_term(next.last(), x)
        }),
        forall|b: int| small_quantities(next, x, b) ==> small_quantities(prefix, x, b),
        forall|s: int| same_quantity_scale(next, x, s) ==> same_quantity_scale(prefix, x, s),
        traded(next, x) && next.last().instrument_id@ != x ==> traded(prefix, x),
{
    assert(next.drop_last() =~= prefix);
    assert forall|b: int| small_quantities(next, x, b) implies small_quantities(prefix, x, b) by {
        assert forall|k: int|
            0 <= k < prefix.len() && (#[trigger] prefix[k]).instrument_id@ == x implies 0
            <= prefix[k].quantity@.2 <= b by {
            assert(next[k] == prefix[k]);
        }
    }
    assert forall|s: int| same_quantity_scale(next, x, s) implies same_quantity_scale(prefix, x, s) by {
        assert forall|k: int|
            0 <= k < prefix.len() && (#[trigger] prefix[k]).instrument_id@ == x implies prefix[k].quantity@.2
            == s by {
            assert(next[k] == prefix[k]);
        }
    }
    if traded(next, x) && next.last().instrument_id@ != x {
        let k = choose|k: int| 0 <= k < next.len() && #[trigger] next[k].instrument_id@ == x;
        assert(k < prefix.len());
        assert(prefix[k] == next[k]);
    }
}

/// The running net of an instrument stays exact when a deal in another
/// instrument is added.
proof fn lemma_exact_other_deal(prefix: Seq<Deal>, next: Seq<Deal>, x: Seq<char>, b: int)
    requires
        next.len() == prefix.len() + 1,
        forall|k: int| 0 <= k < prefix.len() ==> #[trigger] next[k] == prefix[k],
        next.last().instrument_id@ != x,
        net_quantity(next, x) == net_quantity(prefix, x),
        small_quantities(prefix, x, b) ==> net_exact(prefix, x, b),
    ensures
        small_quantities(next, x, b) ==> net_exact(next, x, b),
{
    lemma_sums_step(prefix, next, x);
}

/// The running net of an instrument stays exact when a deal in it is added
/// exactly: the sum of the previous net and the deal's signed quantity is
/// one of `rust_decimal`'s exact sums whenever the quantities are small.
proof fn lemma_exact_own_deal(
    prefix: Seq<Deal>,
    next: Seq<Deal>,
    x: Seq<char>,
    acc: DecimalParts,
    signed: DecimalParts,
    new_net: DecimalParts,
    b: int,
)
    requires
        next.len() == prefix.len() + 1,
        forall|k: int| 0 <= k < prefix.len() ==> #[trigger] next[k] == prefix[k],
        next.last().instrument_id@ == x,
        signed == spec_signed_quantity(next.last()),
        0 <= signed.1,
        0 <= new_net.1,
        net_quantity(prefix, x) == Some(acc),
        net_quantity(next, x) == Some(new_net),
        small_quantities(prefix, x, b) ==> net_exact(prefix, x, b),
        add_is_exact(acc, signed) ==> units(new_net) == units(acc) + units(signed) && new_net.2 == sum_scale(
            acc,
            signed,
        ),
    ensures
        small_quantities(next, x, b) ==> net_exact(next, x, b),
{
    lemma_sums_step(prefix, next, x);
    if small_quantities(next, x, b) {
        lemma_quantity_within_magnitude(prefix, x);
        lemma_quantity_within_magnitude(next, x);
        let last = prefix.len() as int;
        assert(next[last] == next.last());
        assert(0 <= next[last].quantity@.2 <= b);
        lemma_small_sum_is_exact(acc, signed, b);
        if same_quantity_scale(next, x, b) {
            assert(signed.2 == b);
            if !traded(prefix, x) {
                lemma_untraded(prefix, x);
            }
        }
    }
}

proof fn lemma_cost_within_magnitude(deals: Seq<Deal>, id: Seq<char>)
    ensures
        -cost_magnitude(deals, id) <= cost_units(deals, id) <= cost_magnitude(deals, id),
    decreases deals.len(),
{
    if deals.len() > 0 {
        lemma_cost_within_magnitude(deals.drop_last(), id);
    }
}

/// One more deal: the cost sums over `next` are those over `prefix` plus
/// the last deal's term, and small costs of one scale stay so in `prefix`.
proof fn lemma_costs_step(prefix: Seq<Deal>, next: Seq<Deal>, x: Seq<char>)
    requires
        next.len() == prefix.len() + 1,
        forall|k: int| 0 <= k < prefix.len() ==> #[trigger] next[k] == prefix[k],
    ensures
        cost_units(next, x) == cost_units(prefix, x) + cost_term(next.last(), x),
        cost_magnitude(next, x) == cost_magnitude(prefix, x) + (if cost_term(next.last(), x) < 0 {
            -cost_term(next.last(), x)
        } else {
            cost_term(next.last(), x)
        }),
        forall|b: int| small_costs(next, x, b) ==> small_costs(prefix, x, b),
        forall|s: int| same_cost_scale(next, x, s) ==> same_cost_scale(prefix, x, s),
        traded(next, x) && next.last().instrument_id@ != x ==> traded(prefix, x),
{
    assert(next.drop_last() =~= prefix);
    lemma_sums_step(prefix, next, x);
    assert forall|b: int| small_costs(next, x, b) implies small_costs(prefix, x, b) by {
        assert forall|k: int|
            0 <= k < prefix.len() && (#[trigger] prefix[k]).instrument_id@ == x implies cost_within(
            prefix[k],
            b,
        ) by {
            assert(next[k] == prefix[k]);
        }
    }
    assert forall|s: int| same_cost_scale(next, x, s) implies same_cost_scale(prefix, x, s) by {
        assert forall|k: int|
            0 <= k < prefix.len() && (#[trigger] prefix[k]).instrument_id@ == x implies (checked_product(
            spec_signed_quantity(prefix[k]),
            prefix[k].price@,
        ) matches Some(c) && c.2 == s) by {
            assert(next[k] == prefix[k]);
        }
    }
}

/// The running cost of an instrument stays exact when a deal in another
/// instrument is added.
proof fn lemma_cost_exact_other_deal(prefix: Seq<Deal>, next: Seq<Deal>, x: Seq<char>, b: int)
    requires
        next.len() == prefix.len() + 1,
        forall|k: int| 0 <= k < prefix.len() ==> #[trigger] next[k] == prefix[k],
        next.last().instrument_id@ != x,
        net_cost(next, x) == net_cost(prefix, x),
        small_costs(prefix, x, b) ==> cost_exact(prefix, x, b),
    ensures
        small_costs(next, x, b) ==> cost_exact(next, x, b),
{
    lemma_costs_step(prefix, next, x);
}

/// The running cost of an instrument stays exact when a deal in it is
/// added: the sum of the previous cost and the deal's cost is one of
/// `rust_decimal`'s exact sums whenever the costs are small.
proof fn lemma_cost_exact_own_deal(
    prefix: Seq<Deal>,
    next: Seq<Deal>,
    x: Seq<char>,
    acc: DecimalParts,
    cost: DecimalParts,
    new_cost: DecimalParts,
    b: int,
)
    requires
        next.len() == prefix.len() + 1,
        forall|k: int| 0 <= k < prefix.len() ==> #[trigger] next[k] == prefix[k],
        next.last().instrument_id@ == x,
        checked_product(spec_signed_quantity(next.last()), next.last().price@) == Some(cost),
        0 <= new_cost.1,
        net_cost(prefix, x) == Some(acc),
        net_cost(next, x) == Some(new_cost),
        small_costs(prefix, x, b) ==> cost_exact(prefix, x, b),
        add_is_exact(acc, cost) ==> units(new_cost) == units(acc) + units(cost) && new_cost.2 == sum_scale(
            acc,
            cost,
        ),
    ensures
        small_costs(next, x, b) ==> cost_exact(next, x, b),
{
    lemma_costs_step(prefix, next, x);
    if small_costs(next, x, b) {
        lemma_cost_within_magnitude(prefix, x);
        lemma_cost_within_magnitude(next, x);
        let last = prefix.len() as int;
        assert(next[last] == next.last());
        assert(cost_within(next[last], b));
        lemma_small_sum_is_exact(acc, cost, b);
        if same_cost_scale(next, x, b) {
            assert(cost.2 == b);
            if !traded(prefix, x) {
                lemma_untraded(prefix, x);
            }
        }
    }
}

/// Reordering the deals keeps their quantities small.
pub proof fn lemma_reorder_keeps_small_quantities(deals: Seq<Deal>, deals2: Seq<Deal>, id: Seq<char>, b: int)
    requires
        deals2.to_multiset() == deals.to_multiset(),
        small_quantities(deals, id, b),
    ensures
        small_quantities(deals2, id, b),
{
    broadcast use vstd::seq_lib::group_to_multiset_ensures;

    lemma_deal_sum_reorder(
        deals2,
        deals,
        |d: Deal| if quantity_term(d, id) < 0 { -quantity_term(d, id) } else { quantity_term(d, id) },
    );
    assert forall|k: int|
        0 <= k < deals2.len() && (#[trigger] deals2[k]).instrument_id@ == id implies 0
        <= deals2[k].quantity@.2 <= b by {
        assert(deals2.contains(deals2[k]));
        assert(deals2.to_multiset().count(deals2[k]) > 0);
        assert(deals.contains(deals2[k]));
        let j = choose|j: int| 0 <= j < deals.len() && deals[j] == deals2[k];
        assert(deals[j].instrument_id@ == id);
    }
}

/// The sign of a decimal's value is the sign of its units, and flipping
/// the sign flag negates them.
proof fn lemma_units_sign(p: DecimalParts)
    requires
        0 <= p.1,
        0 <= p.2 <= 28,
    ensures
        (units(p) < 0) == (p.0 && p.1 > 0),
        (units(p) == 0) == (p.1 == 0),
        units((!p.0, p.1, p.2)) == -units(p),
{
    let k = (28 - p.2) as nat;
    vstd::arithmetic::power::lemma_pow_positive(10, k);
    let w = vstd::arithmetic::power::pow(10, k);
    let n = numerator(p);
    assert(n * w < 0 <==> n < 0) by (nonlinear_arith)
        requires
            w > 0,
    ;
    assert(n * w == 0 <==> n == 0) by (nonlinear_arith)
        requires
            w > 0,
    ;
    assert((-n) * w == -(n * w)) by (nonlinear_arith);
    assert(numerator((!p.0, p.1, p.2)) == -n);
}

/// Reordering the deals leaves each instrument's net position unchanged
/// in value wherever the running sums are exact (as [`compress`]
/// guarantees for small quantities): the same net signed quantity, hence
/// the same direction and the same unsigned quantity.
pub proof fn lemma_reordered_deals_keep_net_positions(
    deals: Seq<Deal>,
    deals2: Seq<Deal>,
    id: Seq<char>,
    b: int,
)
    requires
        deals2.to_multiset() == deals.to_multiset(),
        b <= 28,
        net_exact(deals, id, b),
        net_exact(deals2, id, b),
    ensures
        units(net_quantity(deals2, id).unwrap()) == units(net_quantity(deals, id).unwrap()),
        position_direction(net_quantity(deals2, id).unwrap()) == position_direction(
            net_quantity(deals, id).unwrap(),
        ),
        units(position_quantity(net_quantity(deals2, id).unwrap())) == units(
            position_quantity(net_quantity(deals, id).unwrap()),
        ),
{
    lemma_deal_sum_reorder(deals2, deals, |d: Deal| quantity_term(d, id));
    let na = net_quantity(deals, id).unwrap();
    let nb = net_quantity(deals2, id).unwrap();
    lemma_units_sign(na);
    lemma_units_sign(nb);
    let qa = position_quantity(na);
    let qb = position_quantity(nb);
    assert(units(qa) == if units(na) < 0 { -units(na) } else { units(na) });
    assert(units(qb) == if units(nb) < 0 { -units(nb) } else { units(nb) });
}

/// Direction of a position with net signed quantity `net`: a fully
/// offset position is a buy.
pub open spec fn position_direction(net: DecimalParts) -> BuySell {
    if is_negative(net) {
        BuySell::Sell
    } else {
        BuySell::Buy
    }
}

/// Unsigned quantity of a position with net signed quantity `net`.
pub open spec fn position_quantity(net: DecimalParts) -> DecimalParts {
    if is_negative(net) {
        (!net.0, net.1, net.2)
    } else {
        net
    }
}

/// Average price of a position: `|cost / net|`, zero for a flat position;
/// `None` if the division overflows.
pub open spec fn position_avg_price(net: DecimalParts, cost: DecimalParts) -> Option<DecimalParts> {
    if position_quantity(net).1 != 0 {
        match checked_quotient(cost, net) {
            Some(q) => Some((false, q.1, q.2)),
            None => None,
        }
    } else {
        Some(zero_parts())
    }
}

/// Compressing `deals` involves no overflow: for every instrument traded,
/// the net quantity, the net cost and the average price are defined.
pub open spec fn compress_defined(deals: Seq<Deal>) -> bool {
    forall|k: int|
        0 <= k < deals.len() ==> {
            let id = #[trigger] deals[k].instrument_id@;
            &&& net_quantity(deals, id) is Some
            &&& net_cost(deals, id) is Some
            &&& position_avg_price(net_quantity(deals, id).unwrap(), net_cost(deals, id).unwrap()) is Some
        }
}

/// `p` is the net position of `deals` in its instrument.
pub open spec fn is_net_position(deals: Seq<Deal>, p: Position) -> bool {
    let net = net_quantity(deals, p.instrument_id@);
    let cost = net_cost(deals, p.instrument_id@);
    &&& net is Some
    &&& cost is Some
    &&& p.direction == position_direction(net.unwrap())
    &&& p.quantity@ == position_quantity(net.unwrap())
    &&& position_avg_price(net.unwrap(), cost.unwrap()) == Some(p.avg_price@)
}

/// Some deal of `deals` is in instrument `id`.
pub open spec fn traded(deals: Seq<Deal>, id: Seq<char>) -> bool {
    exists|k: int| 0 <= k < deals.len() && #[trigger] deals[k].instrument_id@ == id
}

/// Some position of `positions` is in instrument `id`.
pub open spec fn has_position(positions: Seq<Position>, id: Seq<char>) -> bool {
    exists|i: int| 0 <= i < positions.len() && #[trigger] positions[i].instrument_id@ == id
}

/// `positions` is the compression of `deals`: one net position per
/// instrument traded, no other, sorted by instrument id.
pub open spec fn is_compression(deals: Seq<Deal>, positions: Seq<Position>) -> bool {
    &&& forall|i: int, j: int|
        0 <= i < j < positions.len() ==> text_lt(
            #[trigger] positions[i].instrument_id@,
            #[trigger] positions[j].instrument_id@,
        )
    &&& forall|i: int|
        0 <= i < positions.len() ==> traded(deals, #[trigger] positions[i].instrument_id@)
    &&& forall|k: int|
        0 <= k < deals.len() ==> has_position(positions, #[trigger] deals[k].instrument_id@)
    &&& forall|i: int| 0 <= i < positions.len() ==> is_net_position(deals, #[trigger] positions[i])
}

/// A net position per instrument, derived from deals. It is a derived
/// view, not a trade event: it has no id, timestamp or counterparty.
#[derive(Clone, Debug)]
pub struct Position {
    pub instrument_id: String,
    /// Direction of the net position; a fully offset position is `Buy`
    /// with zero quantity.
    pub direction: BuySell,
    /// Net quantity, never negative (the direction carries the sign).
    pub quantity: Decimal,
    /// Net entry price `|net cost / net quantity|`. It embeds the realized
    /// P&L of closed lots (buy 10 @ 71.80, sell 4 @ 72.50 gives 71.33); it
    /// is not the FIFO cost basis of the remaining lots. Zero for a fully
    /// offset position.
    pub avg_price: Decimal,
}

/// Deals with no deal in `id` net to zero quantity and zero cost.
proof fn lemma_untraded(deals: Seq<Deal>, id: Seq<char>)
    requires
        forall|k: int| 0 <= k < deals.len() ==> #[trigger] deals[k].instrument_id@ != id,
    ensures
        net_quantity(deals, id) == Some(zero_parts()),
        net_cost(deals, id) == Some(zero_parts()),
    decreases deals.len(),
{
    if deals.len() > 0 {
        let prefix = deals.drop_last();
        assert forall|k: int| 0 <= k < prefix.len() implies #[trigger] prefix[k].instrument_id@
            != id by {
            assert(prefix[k] == deals[k]);
        }
        lemma_untraded(prefix, id);
        assert(deals.last() == deals[deals.len() - 1]);
    }
}

/// Once an overflow happens in a prefix of the deals, the whole fold fails.
proof fn lemma_failure_persists(deals: Seq<Deal>, n: int, id: Seq<char>)
    requires
        0 <= n <= deals.len(),
    ensures
        net_quantity(deals.take(n), id) is None ==> net_quantity(deals, id) is None,
        net_cost(deals.take(n), id) is None ==> net_cost(deals, id) is None,
    decreases deals.len() - n,
{
    if n == deals.len() {
        assert(deals.take(n) =~= deals);
    } else {
        lemma_failure_persists(deals, n + 1, id);
        assert(deals.take(n + 1).drop_last() =~= deals.take(n));
    }
}

/// One step of the folds: the first `n + 1` deals fold as the first `n`,
/// extended by deal `n`.
proof fn lemma_fold_step(deals: Seq<Deal>, n: int, id: Seq<char>)
    requires
        0 <= n < deals.len(),
    ensures
        net_quantity(deals.take(n + 1), id) == (if deals[n].instrument_id@ == id {
            match net_quantity(deals.take(n), id) {
                Some(acc) => checked_sum(acc, spec_signed_quantity(deals[n])),
                None => None,
            }
        } else {
            net_quantity(deals.take(n), id)
        }),
        net_cost(deals.take(n + 1), id) == (if deals[n].instrument_id@ == id {
            match (
                net_cost(deals.take(n), id),
                checked_product(spec_signed_quantity(deals[n]), deals[n].price@),
            ) {
                (Some(acc), Some(c)) => checked_sum(acc, c),
                _ => None,
            }
        } else {
            net_cost(deals.take(n), id)
        }),
{
    assert(deals.take(n + 1).drop_last() =~= deals.take(n));
    assert(deals.take(n + 1).last() == deals[n]);
}

/// Running totals per instrument: (id, net signed quantity, net signed cost).
type Totals = Vec<(String, Decimal, Decimal)>;

/// `groups` holds the running totals of `deals` per instrument, sorted by id.
spec fn totals_of(deals: Seq<Deal>, groups: Seq<(String, Decimal, Decimal)>) -> bool {
    &&& sorted_ids(groups)
    &&& ids_traded(deals, groups)
    &&& ids_covered(deals, groups)
    &&& totals_right(deals, groups)
}

/// Position in `groups` where `id` is or belongs: every id before it sorts
/// before `id`, and the id there (if any) does not.
fn find_slot(groups: &Totals, id: &String) -> (r: usize)
    ensures
        r <= groups.len(),
        forall|j: int| 0 <= j < r ==> text_lt(#[trigger] groups@[j].0@, id@),
        r < groups.len() ==> !text_lt(groups@[r as int].0@, id@),
{
    let mut p: usize = 0;
    while p < groups.len() && text_less(groups[p].0.as_str(), id.as_str())
        invariant
            p <= groups.len(),
            forall|j: int| 0 <= j < p ==> text_lt(#[trigger] groups@[j].0@, id@),
        decreases groups.len() - p,
    {
        p = p + 1;
    }
    p
}

/// `next` extends `prefix` by one deal in instrument `id`: the totals of
/// every other instrument are unchanged, and those of `id` are `qty` and
/// `cost`.
spec fn step_totals(
    prefix: Seq<Deal>,
    next: Seq<Deal>,
    id: Seq<char>,
    qty: DecimalParts,
    cost: DecimalParts,
) -> bool {
    &&& next.len() == prefix.len() + 1
    &&& forall|k: int| 0 <= k < prefix.len() ==> #[trigger] next[k] == prefix[k]
    &&& next[prefix.len() as int].instrument_id@ == id
    &&& net_quantity(next, id) == Some(qty)
    &&& net_cost(next, id) == Some(cost)
    &&& forall|x: Seq<char>|
        x != id ==> #[trigger] net_quantity(next, x) == net_quantity(prefix, x) && net_cost(next, x)
            == net_cost(prefix, x)
}

/// An instrument traded in `prefix` is traded in any extension of it.
proof fn lemma_traded_extends(prefix: Seq<Deal>, next: Seq<Deal>, x: Seq<char>)
    requires
        traded(prefix, x),
        prefix.len() <= next.len(),
        forall|k: int| 0 <= k < prefix.len() ==> #[trigger] next[k] == prefix[k],
    ensures
        traded(next, x),
{
    let k = choose|k: int| 0 <= k < prefix.len() && #[trigger] prefix[k].instrument_id@ == x;
    assert(next[k] == prefix[k]);
}

/// The slot `p` of `groups` does not hold `id`, and `id` sorts between
/// the ids before the slot and the id at it.
spec fn fresh_slot(groups: Seq<(String, Decimal, Decimal)>, p: int, id: Seq<char>) -> bool {
    &&& 0 <= p <= groups.len()
    &&& forall|j: int| 0 <= j < p ==> text_lt(#[trigger] groups[j].0@, id)
    &&& p < groups.len() ==> !text_lt(groups[p].0@, id) && groups[p].0@ != id
}

/// An id missing from sorted totals is none of their ids.
proof fn lemma_fresh_absent(groups: Seq<(String, Decimal, Decimal)>, p: int, id: Seq<char>)
    requires
        sorted_ids(groups),
        fresh_slot(groups, p, id),
    ensures
        !grouped(groups, id),
{
    if grouped(groups, id) {
        let j = choose|j: int| 0 <= j < groups.len() && #[trigger] groups[j].0@ == id;
        lemma_text_lt_irreflexive(id);
        if j > p {
            assert(text_lt(groups[p].0@, groups[j].0@));
            lemma_text_lt_total(groups[p].0@, id);
            lemma_text_lt_transitive(id, groups[p].0@, groups[j].0@);
        }
    }
}

/// An id missing from the totals was not traded.
proof fn lemma_fresh_untraded(
    prefix: Seq<Deal>,
    groups: Seq<(String, Decimal, Decimal)>,
    p: int,
    id: Seq<char>,
)
    requires
        totals_of(prefix, groups),
        fresh_slot(groups, p, id),
    ensures
        net_quantity(prefix, id) == Some(zero_parts()),
        net_cost(prefix, id) == Some(zero_parts()),
{
    lemma_fresh_absent(groups, p, id);
    assert forall|k: int| 0 <= k < prefix.len() implies #[trigger] prefix[k].instrument_id@
        != id by {
        if prefix[k].instrument_id@ == id {
            assert(grouped(groups, prefix[k].instrument_id@));
        }
    }
    lemma_untraded(prefix, id);
}

/// Some entry of `groups` is for instrument `id`.
spec fn grouped(groups: Seq<(String, Decimal, Decimal)>, id: Seq<char>) -> bool {
    exists|j: int| 0 <= j < groups.len() && #[trigger] groups[j].0@ == id
}

/// The ids of `groups` are sorted strictly.
spec fn sorted_ids(groups: Seq<(String, Decimal, Decimal)>) -> bool {
    forall|i: int, j: int|
        0 <= i < j < groups.len() ==> text_lt(#[trigger] groups[i].0@, #[trigger] groups[j].0@)
}

/// Every id of `groups` is that of a deal.
spec fn ids_traded(deals: Seq<Deal>, groups: Seq<(String, Decimal, Decimal)>) -> bool {
    forall|i: int| 0 <= i < groups.len() ==> traded(deals, #[trigger] groups[i].0@)
}

/// Every deal's id is in `groups`.
spec fn ids_covered(deals: Seq<Deal>, groups: Seq<(String, Decimal, Decimal)>) -> bool {
    forall|k: int| 0 <= k < deals.len() ==> grouped(groups, #[trigger] deals[k].instrument_id@)
}

/// Every entry of `groups` holds the totals of its id.
spec fn totals_right(deals: Seq<Deal>, groups: Seq<(String, Decimal, Decimal)>) -> bool {
    forall|i: int|
        0 <= i < groups.len() ==> net_quantity(deals, #[trigger] groups[i].0@) == Some(groups[i].1@)
            && net_cost(deals, groups[i].0@) == Some(groups[i].2@)
}

/// `groups` is `old_groups` with the entry at `p` replaced.
spec fn updated_at(
    old_groups: Seq<(String, Decimal, Decimal)>,
    groups: Seq<(String, Decimal, Decimal)>,
    p: int,
) -> bool {
    &&& 0 <= p < old_groups.len()
    &&& groups.len() == old_groups.len()
    &&& forall|j: int| 0 <= j < groups.len() && j != p ==> #[trigger] groups[j] == old_groups[j]
    &&& groups[p].0@ == old_groups[p].0@
}

/// `groups` is `old_groups` with a new entry at `p`.
spec fn inserted_at(
    old_groups: Seq<(String, Decimal, Decimal)>,
    groups: Seq<(String, Decimal, Decimal)>,
    p: int,
) -> bool {
    &&& 0 <= p <= old_groups.len()
    &&& groups.len() == old_groups.len() + 1
    &&& forall|j: int| 0 <= j < p ==> #[trigger] groups[j] == old_groups[j]
    &&& forall|j: int| p < j < groups.len() ==> #[trigger] groups[j] == old_groups[j - 1]
}

/// Updating the slot of a traded instrument keeps the totals right.
proof fn lemma_update_slot(
    prefix: Seq<Deal>,
    next: Seq<Deal>,
    old_groups: Seq<(String, Decimal, Decimal)>,
    groups: Seq<(String, Decimal, Decimal)>,
    p: int,
    id: Seq<char>,
)
    requires
        totals_of(prefix, old_groups),
        updated_at(old_groups, groups, p),
        groups[p].0@ == id,
        step_totals(prefix, next, id, groups[p].1@, groups[p].2@),
    ensures
        totals_of(next, groups),
{
    assert forall|a: int, b: int| 0 <= a < b < groups.len() implies text_lt(
        #[trigger] groups[a].0@,
        #[trigger] groups[b].0@,
    ) by {
        assert(text_lt(old_groups[a].0@, old_groups[b].0@));
    }
    assert forall|j: int| 0 <= j < groups.len() implies traded(next, #[trigger] groups[j].0@) by {
        if j == p {
            assert(next[prefix.len() as int].instrument_id@ == id);
        } else {
            assert(traded(prefix, old_groups[j].0@));
            lemma_traded_extends(prefix, next, old_groups[j].0@);
        }
    }
    assert forall|k: int| 0 <= k < next.len() implies grouped(
        groups,
        #[trigger] next[k].instrument_id@,
    ) by {
        if k < prefix.len() {
            assert(next[k] == prefix[k]);
            assert(grouped(old_groups, prefix[k].instrument_id@));
            let j = choose|j: int|
                0 <= j < old_groups.len() && #[trigger] old_groups[j].0@
                    == prefix[k].instrument_id@;
            assert(groups[j].0@ == old_groups[j].0@);
        } else {
            assert(groups[p].0@ == next[k].instrument_id@);
        }
    }
    assert forall|j: int| 0 <= j < groups.len() implies net_quantity(next, #[trigger] groups[j].0@)
        == Some(groups[j].1@) && net_cost(next, groups[j].0@) == Some(groups[j].2@) by {
        if j != p {
            assert(groups[j] == old_groups[j]);
            lemma_text_lt_irreflexive(id);
            if j < p {
                assert(text_lt(old_groups[j].0@, old_groups[p].0@));
            } else {
                assert(text_lt(old_groups[p].0@, old_groups[j].0@));
            }
        }
    }
}

/// Inserting a new instrument at its slot keeps the totals right.
proof fn lemma_insert_slot(
    prefix: Seq<Deal>,
    next: Seq<Deal>,
    old_groups: Seq<(String, Decimal, Decimal)>,
    groups: Seq<(String, Decimal, Decimal)>,
    p: int,
    id: Seq<char>,
)
    requires
        totals_of(prefix, old_groups),
        fresh_slot(old_groups, p, id),
        inserted_at(old_groups, groups, p),
        groups[p].0@ == id,
        step_totals(prefix, next, id, groups[p].1@, groups[p].2@),
    ensures
        totals_of(next, groups),
{
    assert forall|a: int, b: int| 0 <= a < b < groups.len() implies text_lt(
        #[trigger] groups[a].0@,
        #[trigger] groups[b].0@,
    ) by {
        if b < p {
            assert(text_lt(old_groups[a].0@, old_groups[b].0@));
        } else if a < p && b == p {
        } else if a < p && b > p {
            assert(text_lt(old_groups[a].0@, old_groups[b - 1].0@));
        } else if a == p {
            lemma_text_lt_total(old_groups[p].0@, id);
            if b - 1 > p {
                assert(text_lt(old_groups[p].0@, old_groups[b - 1].0@));
                lemma_text_lt_transitive(id, old_groups[p].0@, old_groups[b - 1].0@);
            }
        } else {
            assert(text_lt(old_groups[a - 1].0@, old_groups[b - 1].0@));
        }
    }
    assert forall|j: int| 0 <= j < groups.len() implies traded(next, #[trigger] groups[j].0@) by {
        if j == p {
            assert(next[prefix.len() as int].instrument_id@ == id);
        } else {
            let jj = if j < p {
                j
            } else {
                j - 1
            };
            assert(groups[j] == old_groups[jj]);
            assert(traded(prefix, old_groups[jj].0@));
            lemma_traded_extends(prefix, next, old_groups[jj].0@);
        }
    }
    assert forall|k: int| 0 <= k < next.len() implies grouped(
        groups,
        #[trigger] next[k].instrument_id@,
    ) by {
        if k < prefix.len() {
            assert(next[k] == prefix[k]);
            assert(grouped(old_groups, prefix[k].instrument_id@));
            let j = choose|j: int|
                0 <= j < old_groups.len() && #[trigger] old_groups[j].0@
                    == prefix[k].instrument_id@;
            if j < p {
                assert(groups[j] == old_groups[j]);
            } else {
                assert(groups[j + 1] == old_groups[j]);
            }
        } else {
            assert(groups[p].0@ == next[k].instrument_id@);
        }
    }
    assert forall|j: int| 0 <= j < groups.len() implies net_quantity(next, #[trigger] groups[j].0@)
        == Some(groups[j].1@) && net_cost(next, groups[j].0@) == Some(groups[j].2@) by {
        if j != p {
            let jj = if j < p {
                j
            } else {
                j - 1
            };
            assert(groups[j] == old_groups[jj]);
            lemma_text_lt_irreflexive(id);
            if j > p {
                lemma_text_lt_total(old_groups[p].0@, id);
                if jj > p {
                    assert(text_lt(old_groups[p].0@, old_groups[jj].0@));
                    lemma_text_lt_transitive(id, old_groups[p].0@, old_groups[jj].0@);
                }
            }
        }
    }
}

/// The running totals of all `deals`; `None` if an addition or a
/// multiplication overflows for some instrument.
fn accumulate(deals: &[Deal]) -> (r: Option<Totals>)
    ensures
        r matches Some(g) ==> totals_of(deals@, g@),
        r is Some ==> forall|x: Seq<char>, b: int| small_quantities(deals@, x, b) ==> #[trigger] net_exact(deals@, x, b),
        r is Some ==> forall|x: Seq<char>, b: int| small_costs(deals@, x, b) ==> #[trigger] cost_exact(deals@, x, b),
        r is None ==> exists|k: int|
            0 <= k < deals@.len() && (net_quantity(deals@, #[trigger] deals@[k].instrument_id@) is None
                || net_cost(deals@, deals@[k].instrument_id@) is None),
{
    let mut groups: Totals = Vec::new();
    let mut i: usize = 0;
    proof {
        assert forall|x: Seq<char>, b: int| small_quantities(deals@.take(0), x, b) implies #[trigger] net_exact(
            deals@.take(0),
            x,
            b,
        ) by {
            assert(units(zero_parts()) == 0);
        }
        assert forall|x: Seq<char>, b: int| small_costs(deals@.take(0), x, b) implies #[trigger] cost_exact(
            deals@.take(0),
            x,
            b,
        ) by {
            assert(units(zero_parts()) == 0);
        }
    }
    while i < deals.len()
        invariant
            i <= deals@.len(),
            totals_of(deals@.take(i as int), groups@),
            forall|x: Seq<char>, b: int|
                small_quantities(deals@.take(i as int), x, b) ==> #[trigger] net_exact(deals@.take(i as int), x, b),
            forall|x: Seq<char>, b: int|
                small_costs(deals@.take(i as int), x, b) ==> #[trigger] cost_exact(deals@.take(i as int), x, b),
        decreases deals.len() - i,
    {
        let ghost prefix = deals@.take(i as int);
        let ghost next = deals@.take(i + 1);
        let deal = &deals[i];
        let id = &deal.instrument_id;
        let signed = deal.signed_quantity();
        let p = find_slot(&groups, id);
        proof {
            assert forall|x: Seq<char>| x != id@ implies #[trigger] net_quantity(next, x)
                == net_quantity(prefix, x) && net_cost(next, x) == net_cost(prefix, x) by {
                lemma_fold_step(deals@, i as int, x);
            }
            lemma_fold_step(deals@, i as int, id@);
            lemma_failure_persists(deals@, i + 1, id@);
            assert(next[i as int] == deals@[i as int]);
            assert forall|k: int| 0 <= k < prefix.len() implies #[trigger] next[k] == prefix[k] by {}
        }
        let found = p < groups.len() && groups[p].0 == *id;
        let (acc_qty, acc_cost) = if found {
            proof {
                assert(net_quantity(prefix, groups@[p as int].0@) == Some(groups@[p as int].1@));
            }
            (groups[p].1, groups[p].2)
        } else {
            proof {
                lemma_fresh_untraded(prefix, groups@, p as int, id@);
            }
            (Decimal::zero(), Decimal::zero())
        };
        let new_qty = match acc_qty.checked_add(signed) {
            Some(q) => q,
            None => {
                proof {
                    assert(deals@[i as int].instrument_id@ == id@);
                }
                return None;
            },
        };
        let cost = match signed.checked_mul(deal.price) {
            Some(c) => c,
            None => {
                proof {
                    assert(deals@[i as int].instrument_id@ == id@);
                }
                return None;
            },
        };
        let new_cost = match acc_cost.checked_add(cost) {
            Some(t) => t,
            None => {
                proof {
                    assert(deals@[i as int].instrument_id@ == id@);
                }
                return None;
            },
        };
        let ghost old_groups = groups@;
        proof {
            assert(step_totals(prefix, next, id@, new_qty@, new_cost@));
            use_type_invariant(&signed);
            use_type_invariant(&new_qty);
            assert(next.last() == deals@[i as int]);
            assert forall|x: Seq<char>, b: int| small_quantities(next, x, b) implies #[trigger] net_exact(
                next,
                x,
                b,
            ) by {
                if x == id@ {
                    lemma_exact_own_deal(prefix, next, x, acc_qty@, signed@, new_qty@, b);
                } else {
                    lemma_exact_other_deal(prefix, next, x, b);
                }
            }
            use_type_invariant(&new_cost);
            assert forall|x: Seq<char>, b: int| small_costs(next, x, b) implies #[trigger] cost_exact(
                next,
                x,
                b,
            ) by {
                if x == id@ {
                    lemma_cost_exact_own_deal(prefix, next, x, acc_cost@, cost@, new_cost@, b);
                } else {
                    assert(net_quantity(next, x) == net_quantity(prefix, x));
                    lemma_cost_exact_other_deal(prefix, next, x, b);
                }
            }
        }
        if found {
            groups.set(p, (id.clone(), new_qty, new_cost));
            proof {
                assert forall|j: int| 0 <= j < groups@.len() && j != p implies #[trigger] groups@[j]
                    == old_groups[j] by {}
                assert(updated_at(old_groups, groups@, p as int));
                lemma_update_slot(prefix, next, old_groups, groups@, p as int, id@);
            }
        } else {
            groups.insert(p, (id.clone(), new_qty, new_cost));
            proof {
                assert forall|j: int| 0 <= j < p implies #[trigger] groups@[j] == old_groups[j] by {}
                assert forall|j: int| p < j < groups@.len() implies #[trigger] groups@[j]
                    == old_groups[j - 1] by {}
                assert(inserted_at(old_groups, groups@, p as int));
                lemma_insert_slot(prefix, next, old_groups, groups@, p as int, id@);
            }
        }
        i = i + 1;
    }
    proof {
        assert(deals@.take(deals@.len() as int) =~= deals@);
    }
    Some(groups)
}

/// Compressing a reordering of the deals gives the same positions: each
/// instrument of one compression has a position in the other, and where
/// its quantities are small (so that both running sums are exact, as
/// [`compress`] guarantees) the two positions have the same direction and
/// the same quantity in value.
pub proof fn lemma_reordered_compressions_agree(
    deals: Seq<Deal>,
    deals2: Seq<Deal>,
    ps: Seq<Position>,
    qs: Seq<Position>,
    i: int,
    b: int,
)
    requires
        deals2.to_multiset() == deals.to_multiset(),
        is_compression(deals, ps),
        is_compression(deals2, qs),
        forall|x: Seq<char>, b: int| small_quantities(deals, x, b) ==> #[trigger] net_exact(deals, x, b),
        forall|x: Seq<char>, b: int| small_quantities(deals2, x, b) ==> #[trigger] net_exact(deals2, x, b),
        0 <= i < ps.len(),
    ensures
        has_position(qs, ps[i].instrument_id@),
        forall|j: int|
            0 <= j < qs.len() && (#[trigger] qs[j]).instrument_id@ == ps[i].instrument_id@
                && small_quantities(deals, ps[i].instrument_id@, b) ==> qs[j].direction == ps[i].direction
                && units(qs[j].quantity@) == units(ps[i].quantity@),
{
    broadcast use vstd::seq_lib::group_to_multiset_ensures;

    let id = ps[i].instrument_id@;
    assert(traded(deals, id));
    let k = choose|k: int| 0 <= k < deals.len() && #[trigger] deals[k].instrument_id@ == id;
    assert(deals.contains(deals[k]));
    assert(deals.to_multiset().count(deals[k]) > 0);
    assert(deals2.contains(deals[k]));
    let k2 = choose|k2: int| 0 <= k2 < deals2.len() && deals2[k2] == deals[k];
    assert(deals2[k2].instrument_id@ == id);
    assert(has_position(qs, deals2[k2].instrument_id@));
    assert forall|j: int|
        0 <= j < qs.len() && (#[trigger] qs[j]).instrument_id@ == id && small_quantities(
            deals,
            id,
            b,
        ) implies qs[j].direction == ps[i].direction && units(qs[j].quantity@) == units(
        ps[i].quantity@,
    ) by {
        lemma_reorder_keeps_small_quantities(deals, deals2, id, b);
        assert(net_exact(deals, id, b));
        assert(net_exact(deals2, id, b));
        assert(is_net_position(deals, ps[i]));
        assert(is_net_position(deals2, qs[j]));
        lemma_reordered_deals_keep_net_positions(deals, deals2, id, b);
    }
}

/// Every deal of a reordering is a deal of the original.
proof fn lemma_reordered_deal(deals: Seq<Deal>, deals2: Seq<Deal>, k: int) -> (j: int)
    requires
        deals2.to_multiset() == deals.to_multiset(),
        0 <= k < deals2.len(),
    ensures
        0 <= j < deals.len(),
        deals[j] == deals2[k],
{
    broadcast use vstd::seq_lib::group_to_multiset_ensures;

    assert(deals2.contains(deals2[k]));
    assert(deals2.to_multiset().count(deals2[k]) > 0);
    assert(deals.contains(deals2[k]));
    choose|j: int| 0 <= j < deals.len() && deals[j] == deals2[k]
}

/// Reordering the deals keeps an instrument traded, its exact net cost,
/// its costs small, and the scales of its quantities and of its costs.
proof fn lemma_reorder_keeps_costs(deals: Seq<Deal>, deals2: Seq<Deal>, id: Seq<char>)
    requires
        deals2.to_multiset() == deals.to_multiset(),
    ensures
        traded(deals, id) ==> traded(deals2, id),
        cost_units(deals2, id) == cost_units(deals, id),
        forall|b: int| small_costs(deals, id, b) ==> small_costs(deals2, id, b),
        forall|s: int| same_cost_scale(deals, id, s) ==> same_cost_scale(deals2, id, s),
        forall|s: int| same_quantity_scale(deals, id, s) ==> same_quantity_scale(deals2, id, s),
{
    lemma_deal_sum_reorder(deals2, deals, |d: Deal| cost_term(d, id));
    lemma_deal_sum_reorder(
        deals2,
        deals,
        |d: Deal| if cost_term(d, id) < 0 { -cost_term(d, id) } else { cost_term(d, id) },
    );
    if traded(deals, id) {
        let k = choose|k: int| 0 <= k < deals.len() && #[trigger] deals[k].instrument_id@ == id;
        let k2 = lemma_reordered_deal(deals2, deals, k);
        assert(deals2[k2].instrument_id@ == id);
    }
    assert forall|b: int| small_costs(deals, id, b) implies small_costs(deals2, id, b) by {
        assert forall|k: int|
            0 <= k < deals2.len() && (#[trigger] deals2[k]).instrument_id@ == id implies cost_within(
            deals2[k],
            b,
        ) by {
            let j = lemma_reordered_deal(deals, deals2, k);
            assert(deals[j].instrument_id@ == id);
        }
    }
    assert forall|s: int| same_cost_scale(deals, id, s) implies same_cost_scale(deals2, id, s) by {
        assert forall|k: int|
            0 <= k < deals2.len() && (#[trigger] deals2[k]).instrument_id@ == id implies (checked_product(
            spec_signed_quantity(deals2[k]),
            deals2[k].price@,
        ) matches Some(c) && c.2 == s) by {
            let j = lemma_reordered_deal(deals, deals2, k);
            assert(deals[j].instrument_id@ == id);
        }
    }
    assert forall|s: int| same_quantity_scale(deals, id, s) implies same_quantity_scale(deals2, id, s) by {
        assert forall|k: int|
            0 <= k < deals2.len() && (#[trigger] deals2[k]).instrument_id@ == id implies deals2[k].quantity@.2
            == s by {
            let j = lemma_reordered_deal(deals, deals2, k);
            assert(deals[j].instrument_id@ == id);
        }
    }
}

/// Two decimals of one scale with the same non-zero value have the same
/// parts.
proof fn lemma_parts_from_units(p: DecimalParts, q: DecimalParts)
    requires
        0 <= p.1,
        0 <= q.1,
        0 <= p.2 <= 28,
        p.2 == q.2,
        units(p) == units(q),
        units(p) != 0,
    ensures
        p == q,
{
    let w = pow(10, (28 - p.2) as nat);
    vstd::arithmetic::power::lemma_pow_positive(10, (28 - p.2) as nat);
    let a = numerator(p);
    let b = numerator(q);
    assert(a == b) by (nonlinear_arith)
        requires
            w > 0,
            a * w == b * w,
    ;
    lemma_units_sign(p);
    lemma_units_sign(q);
}

/// Compressing a reordering of the deals gives the same average price
/// for an instrument whose quantities all have one scale and whose costs
/// all have one scale, both small (so that every running sum is exact, as
/// [`compress`] guarantees), and whose net cost is not zero: the net
/// quantity and the net cost come out as the same decimals in either
/// order, and the same division follows.
pub proof fn lemma_reordered_compressions_agree_on_price(
    deals: Seq<Deal>,
    deals2: Seq<Deal>,
    ps: Seq<Position>,
    qs: Seq<Position>,
    i: int,
    j: int,
    bq: int,
    bc: int,
)
    requires
        deals2.to_multiset() == deals.to_multiset(),
        is_compression(deals, ps),
        is_compression(deals2, qs),
        forall|x: Seq<char>, b: int| small_quantities(deals, x, b) ==> #[trigger] net_exact(deals, x, b),
        forall|x: Seq<char>, b: int| small_quantities(deals2, x, b) ==> #[trigger] net_exact(deals2, x, b),
        forall|x: Seq<char>, b: int| small_costs(deals, x, b) ==> #[trigger] cost_exact(deals, x, b),
        forall|x: Seq<char>, b: int| small_costs(deals2, x, b) ==> #[trigger] cost_exact(deals2, x, b),
        0 <= i < ps.len(),
        0 <= j < qs.len(),
        qs[j].instrument_id@ == ps[i].instrument_id@,
        small_quantities(deals, ps[i].instrument_id@, bq),
        same_quantity_scale(deals, ps[i].instrument_id@, bq),
        small_costs(deals, ps[i].instrument_id@, bc),
        same_cost_scale(deals, ps[i].instrument_id@, bc),
        cost_units(deals, ps[i].instrument_id@) != 0,
    ensures
        qs[j].avg_price@ == ps[i].avg_price@,
{
    let id = ps[i].instrument_id@;
    assert(traded(deals, id));
    lemma_reorder_keeps_costs(deals, deals2, id);
    lemma_reorder_keeps_small_quantities(deals, deals2, id, bq);
    lemma_deal_sum_reorder(deals2, deals, |d: Deal| quantity_term(d, id));
    assert(net_exact(deals, id, bq));
    assert(net_exact(deals2, id, bq));
    assert(cost_exact(deals, id, bc));
    assert(cost_exact(deals2, id, bc));
    assert(is_net_position(deals, ps[i]));
    assert(is_net_position(deals2, qs[j]));
    let na = net_quantity(deals, id).unwrap();
    let nb = net_quantity(deals2, id).unwrap();
    let ca = net_cost(deals, id).unwrap();
    let cb = net_cost(deals2, id).unwrap();
    lemma_parts_from_units(ca, cb);
    lemma_units_sign(na);
    lemma_units_sign(nb);
    if units(na) != 0 {
        lemma_parts_from_units(na, nb);
    }
}

/// Compress deals into net positions per instrument, or `None` when the
/// arithmetic overflows a decimal for some instrument.
///
/// Fully offset positions (net quantity zero) are included with a zero
/// price. The result is sorted by instrument id.
pub fn try_compress(deals: &[Deal]) -> (r: Option<Vec<Position>>)
    ensures
        r is Some <==> compress_defined(deals@),
        r matches Some(v) ==> is_compression(deals@, v@),
        r is Some ==> forall|x: Seq<char>, b: int| small_quantities(deals@, x, b) ==> #[trigger] net_exact(deals@, x, b),
        r is Some ==> forall|x: Seq<char>, b: int| small_costs(deals@, x, b) ==> #[trigger] cost_exact(deals@, x, b),
{
    let groups = match accumulate(deals) {
        Some(g) => g,
        None => return None,
    };
    let zero = Decimal::zero();
    let mut positions: Vec<Position> = Vec::new();
    let mut i: usize = 0;
    while i < groups.len()
        invariant
            i <= groups@.len(),
            positions@.len() == i,
            totals_of(deals@, groups@),
            zero@ == zero_parts(),
            forall|j: int|
                0 <= j < i ==> (#[trigger] positions@[j]).instrument_id@ == groups@[j].0@
                    && is_net_position(deals@, positions@[j]),
        decreases groups.len() - i,
    {
        let (id, net, cost) = (&groups[i].0, groups[i].1, groups[i].2);
        proof {
            use_type_invariant(&net);
            lemma_compare_zero(net@);
            assert(net_quantity(deals@, groups@[i as int].0@) == Some(net@));
            assert(net_cost(deals@, groups@[i as int].0@) == Some(cost@));
        }
        let (direction, quantity) = if net.lt(&zero) {
            (BuySell::Sell, net.neg())
        } else {
            (BuySell::Buy, net)
        };
        proof {
            use_type_invariant(&quantity);
            lemma_compare_zero(quantity@);
        }
        let avg_price = if !quantity.value_equals(&zero) {
            match cost.checked_div(net) {
                Some(q) => q.abs(),
                None => {
                    proof {
                        assert(traded(deals@, groups@[i as int].0@));
                        let k = choose|k: int|
                            0 <= k < deals@.len() && #[trigger] deals@[k].instrument_id@
                                == groups@[i as int].0@;
                        assert(position_avg_price(net@, cost@) is None);
                        assert(!compress_defined(deals@));
                    }
                    return None;
                },
            }
        } else {
            zero
        };
        let pos = Position { instrument_id: id.clone(), direction, quantity, avg_price };
        proof {
            assert(pos.instrument_id@ == groups@[i as int].0@);
            assert(pos.direction == position_direction(net@));
            assert(pos.quantity@ == position_quantity(net@));
            assert(position_avg_price(net@, cost@) == Some(pos.avg_price@));
            assert(is_net_position(deals@, pos));
        }
        positions.push(pos);
        i = i + 1;
    }
    proof {
        assert forall|k: int| 0 <= k < deals@.len() implies {
            let id = #[trigger] deals@[k].instrument_id@;
            &&& net_quantity(deals@, id) is Some
            &&& net_cost(deals@, id) is Some
            &&& position_avg_price(
                net_quantity(deals@, id).unwrap(),
                net_cost(deals@, id).unwrap(),
            ) is Some
        } by {
            assert(grouped(groups@, deals@[k].instrument_id@));
            let j = choose|j: int|
                0 <= j < groups@.len() && #[trigger] groups@[j].0@ == deals@[k].instrument_id@;
            assert(is_net_position(deals@, positions@[j]));
        }
        assert forall|a: int, b: int| 0 <= a < b < positions@.len() implies text_lt(
            #[trigger] positions@[a].instrument_id@,
            #[trigger] positions@[b].instrument_id@,
        ) by {
            assert(text_lt(groups@[a].0@, groups@[b].0@));
        }
        assert forall|a: int| 0 <= a < positions@.len() implies traded(
            deals@,
            #[trigger] positions@[a].instrument_id@,
        ) by {
            assert(positions@[a].instrument_id@ == groups@[a].0@);
            assert(traded(deals@, groups@[a].0@));
        }
        assert forall|k: int| 0 <= k < deals@.len() implies has_position(
            positions@,
            #[trigger] deals@[k].instrument_id@,
        ) by {
            assert(grouped(groups@, deals@[k].instrument_id@));
            let j = choose|j: int|
                0 <= j < groups@.len() && #[trigger] groups@[j].0@ == deals@[k].instrument_id@;
            assert(positions@[j].instrument_id@ == groups@[j].0@);
        }
    }
    Some(positions)
}

/// Compress deals into net positions per instrument.
///
/// Fully offset positions (net quantity zero) are included with a zero
/// price. The result is sorted by instrument id. The arithmetic must not
/// overflow a decimal (see [`try_compress`]). Where an instrument's
/// quantities are small, its net quantity is their exact sum, so it does
/// not depend on the order of the deals (see
/// [`lemma_reordered_deals_keep_net_positions`]); where its costs are
/// small too and of one scale, neither does its average price (see
/// [`lemma_reordered_compressions_agree_on_price`]).
pub fn compress(deals: &[Deal]) -> (r: Vec<Position>)
    requires
        compress_defined(deals@),
    ensures
        is_compression(deals@, r@),
        forall|x: Seq<char>, b: int| small_quantities(deals@, x, b) ==> #[trigger] net_exact(deals@, x, b),
        forall|x: Seq<char>, b: int| small_costs(deals@, x, b) ==> #[trigger] cost_exact(deals@, x, b),
{
    match try_compress(deals) {
        Some(v) => v,
        None => Vec::new(),
    }
}

/// Provenance of an official mark: a settle is observed, a model price is
/// computed, a proxy borrows an observation from a configured twin.
#[derive(Clone, Copy, Debug, PartialEq, Eq)]
pub enum MarkSource {
    /// Official settlement price: audit-grade, no model in the path.
    Settle,
    /// Model price (uncleared instruments, or types without settles).
    Model,
    /// A cleared twin's settlement price, adopted by explicit per-book
    /// configuration for an uncleared lookalike.
    Proxy,
}

impl MarkSource {
    /// The name shown in the pnl report's Source column.
    pub fn as_str(&self) -> (r: &'static str)
        ensures
            r@ == (match self {
                MarkSource::Settle => "settle"@,
                MarkSource::Model => "model"@,
                MarkSource::Proxy => "proxy"@,
            }),
    {
        match self {
            MarkSource::Settle => {
                proof {
                    reveal_strlit("settle");
                }
                "settle"
            },
            MarkSource::Model => {
                proof {
                    reveal_strlit("model");
                }
                "model"
            },
            MarkSource::Proxy => {
                proof {
                    reveal_strlit("proxy");
                }
                "proxy"
            },
        }
    }
}

/// Successful mark-to-market result for one deal.
#[derive(Clone, Debug)]
pub struct Valuation {
    pub mark: Decimal,
    pub pnl: Decimal,
    pub realized: bool,
    /// Where the mark came from.
    pub source: MarkSource,
}

/// A deal with its valuation, or the reason it could not be priced.
/// Every input deal produces exactly one `ValuedDeal`; pricing failures
/// are never dropped.
#[derive(Debug)]
pub struct ValuedDeal {
    pub deal: Deal,
    pub valuation: crate::error::Result<Valuation>,
}

/// Per-book proxy-mark policy: pairs of (uncleared lookalike id, cleared
/// twin id) whose settle serves as the lookalike's official mark. The
/// first pair for an id counts.
pub type ProxyMarks = Vec<(String, String)>;

/// The twin configured for `id` in `proxies` (the first pair for it).
pub open spec fn proxy_twin(proxies: Seq<(String, String)>, id: Seq<char>) -> Option<Seq<char>>
    decreases proxies.len(),
{
    if proxies.len() == 0 {
        None
    } else if proxies[0].0@ == id {
        Some(proxies[0].1@)
    } else {
        proxy_twin(proxies.drop_first(), id)
    }
}

/// Where the official mark of an instrument comes from.
#[derive(Clone, Debug)]
pub enum MarkRoute {
    /// The instrument's own settlement price.
    Settle,
    /// The settlement price of the configured cleared twin.
    Proxy { twin: String },
    /// The model price.
    Model,
}

/// `route` is the official-valuation mark policy for `inst`, dispatched
/// on clearing: a cleared instrument marks at its own settle; an uncleared
/// one with a configured proxy at its twin's settle; anything else
/// (uncleared without proxy, or a type with no clearing dimension) at the
/// model price.
pub open spec fn is_mark_route(inst: Instrument, proxies: Seq<(String, String)>, route: MarkRoute) -> bool {
    match spec_clearing(inst) {
        Some(ClearingStatus::Cleared) => route is Settle,
        Some(ClearingStatus::Uncleared) => match proxy_twin(proxies, spec_id(inst)) {
            Some(t) => route matches MarkRoute::Proxy { twin } && twin@ == t,
            None => route is Model,
        },
        None => route is Model,
    }
}

/// The twin configured for `id`, if any.
pub fn find_proxy<'a>(proxies: &'a ProxyMarks, id: &str) -> (r: Option<&'a String>)
    ensures
        r matches Some(t) ==> proxy_twin(proxies@, id@) == Some(t@),
        r is None ==> proxy_twin(proxies@, id@) is None,
{
    let key = String::from_str(id);
    let mut i: usize = 0;
    proof {
        assert(proxies@.skip(0) =~= proxies@);
    }
    while i < proxies.len()
        invariant
            i <= proxies@.len(),
            key@ == id@,
            proxy_twin(proxies@, id@) == proxy_twin(proxies@.skip(i as int), id@),
        decreases proxies.len() - i,
    {
        proof {
            assert(proxies@.skip(i as int)[0] == proxies@[i as int]);
            assert(proxies@.skip(i as int).drop_first() =~= proxies@.skip(i + 1));
        }
        if proxies[i].0 == key {
            return Some(&proxies[i].1);
        }
        i = i + 1;
    }
    None
}

/// The official mark policy for `inst` under the book's proxy marks.
pub fn mark_route(inst: &Instrument, proxies: &ProxyMarks) -> (r: MarkRoute)
    ensures
        is_mark_route(*inst, proxies@, r),
{
    match inst.clearing() {
        Some(ClearingStatus::Cleared) => MarkRoute::Settle,
        Some(ClearingStatus::Uncleared) => match find_proxy(proxies, inst.id().as_str()) {
            Some(twin) => MarkRoute::Proxy { twin: twin.clone() },
            None => MarkRoute::Model,
        },
        None => MarkRoute::Model,
    }
}

/// Text of the error for a cleared instrument with no settle.
pub open spec fn missing_settle_message(id: Seq<char>) -> Seq<char> {
    "cleared instrument '"@ + id + "': no settlement price at valuation date"@
}

/// Text of the error for a proxied instrument whose twin has no settle.
pub open spec fn missing_twin_message(id: Seq<char>, twin: Seq<char>) -> Seq<char> {
    "uncleared instrument '"@ + id + "' proxies '"@ + twin
        + "': no settlement price for the twin at valuation date"@
}

/// The official mark of instrument `id` along `route`, given what was
/// observed or computed for it: the settle of the instrument or of its
/// twin, or the model price. A missing settle is an error, never a silent
/// model fallback; a model failure is passed on.
pub fn official_mark(id: &str, route: &MarkRoute, observed: crate::error::Result<Decimal>) -> (r:
    crate::error::Result<(Decimal, MarkSource)>)
    ensures
        observed matches Ok(p) ==> r == Ok::<(Decimal, MarkSource), Error>(
            (
                p,
                match route {
                    MarkRoute::Settle => MarkSource::Settle,
                    MarkRoute::Proxy { .. } => MarkSource::Proxy,
                    MarkRoute::Model => MarkSource::Model,
                },
            ),
        ),
        observed is Err ==> (match route {
            MarkRoute::Settle => r matches Err(Error::Pricer(m)) && m@ == missing_settle_message(
                id@,
            ),
            MarkRoute::Proxy { twin } => r matches Err(Error::Pricer(m)) && m@
                == missing_twin_message(id@, twin@),
            MarkRoute::Model => r matches Err(e) && observed == Err::<Decimal, Error>(e),
        }),
{
    match route {
        MarkRoute::Settle => match observed {
            Ok(p) => Ok((p, MarkSource::Settle)),
            Err(_) => {
                proof {
                    reveal_strlit("cleared instrument '");
                    reveal_strlit("': no settlement price at valuation date");
                }
                Err(
                    Error::Pricer(
                        String::from_str("cleared instrument '").concat(id).concat(
                            "': no settlement price at valuation date",
                        ),
                    ),
                )
            },
        },
        MarkRoute::Proxy { twin } => match observed {
            Ok(p) => Ok((p, MarkSource::Proxy)),
            Err(_) => {
                proof {
                    reveal_strlit("uncleared instrument '");
                    reveal_strlit("' proxies '");
                    reveal_strlit("': no settlement price for the twin at valuation date");
                }
                Err(
                    Error::Pricer(
                        String::from_str("uncleared instrument '").concat(id).concat(
                            "' proxies '",
                        ).concat(twin.as_str()).concat(
                            "': no settlement price for the twin at valuation date",
                        ),
                    ),
                )
            },
        },
        MarkRoute::Model => match observed {
            Ok(p) => Ok((p, MarkSource::Model)),
            Err(e) => Err(e),
        },
    }
}

/// The first instrument of `instruments` with id `id`.
pub open spec fn instrument_lookup(instruments: Seq<Instrument>, id: Seq<char>) -> Option<Instrument>
    decreases instruments.len(),
{
    if instruments.len() == 0 {
        None
    } else if spec_id(instruments[0]) == id {
        Some(instruments[0])
    } else {
        instrument_lookup(instruments.drop_first(), id)
    }
}

/// Parts of one.
pub open spec fn one_parts() -> DecimalParts {
    (false, 1int, 0int)
}

/// Contract size for P&L in money terms: a future carries its own; an
/// option inherits that of its underlying future; anything else counts 1.
pub open spec fn spec_contract_size(inst: Instrument, instruments: Seq<Instrument>) -> DecimalParts {
    match inst {
        Instrument::Future(f) => f.contract_size@,
        Instrument::EuropeanOption(o) => match instrument_lookup(instruments, o.underlying@) {
            Some(Instrument::Future(u)) => u.contract_size@,
            _ => one_parts(),
        },
        _ => one_parts(),
    }
}

/// P&L of `deal` at mark `mark` with contract size `size`:
/// `signed quantity × (mark − price) × size`; `None` on overflow.
pub open spec fn deal_pnl(deal: Deal, mark: DecimalParts, size: DecimalParts) -> Option<DecimalParts> {
    match checked_difference(mark, deal.price@) {
        Some(d) => match checked_product(spec_signed_quantity(deal), d) {
            Some(x) => checked_product(x, size),
            None => None,
        },
        None => None,
    }
}

/// Whether a deal in `inst` is realized on the day numbered `valuation_day`:
/// the instrument has matured before it.
pub open spec fn spec_realized(inst: Instrument, valuation_day: int) -> bool {
    match spec_maturity(inst) {
        Some(m) => valuation_day > m,
        None => false,
    }
}

/// Valuing `deal` at `mark` involves no overflow.
pub open spec fn pnl_defined(
    deal: Deal,
    instruments: Seq<Instrument>,
    mark: crate::error::Result<(Decimal, MarkSource)>,
) -> bool {
    match (instrument_lookup(instruments, deal.instrument_id@), mark) {
        (Some(inst), Ok((m, _))) => deal_pnl(
            deal,
            m@,
            spec_contract_size(inst, instruments),
        ) is Some,
        _ => true,
    }
}

/// Text of the error for a deal in an instrument that is not in the book.
pub open spec fn unknown_instrument_message(id: Seq<char>) -> Seq<char> {
    "unknown instrument '"@ + id + "'"@
}

/// `r` is the valuation of `deal` in `instruments` on the day numbered
/// `valuation_day`, given the official mark of its instrument.
pub open spec fn is_deal_valuation(
    deal: Deal,
    instruments: Seq<Instrument>,
    valuation_day: int,
    mark: crate::error::Result<(Decimal, MarkSource)>,
    r: crate::error::Result<Valuation>,
) -> bool {
    match instrument_lookup(instruments, deal.instrument_id@) {
        None => r matches Err(Error::Pricer(m)) && m@ == unknown_instrument_message(
            deal.instrument_id@,
        ),
        Some(inst) => match mark {
            Err(e) => r == Err::<Valuation, Error>(e),
            Ok((m, source)) => r matches Ok(v) && v.mark == m && v.source == source && deal_pnl(
                deal,
                m@,
                spec_contract_size(inst, instruments),
            ) == Some(v.pnl@) && v.realized == spec_realized(inst, valuation_day),
        },
    }
}

/// Position of the first instrument with id `id`.
pub fn find_instrument(instruments: &[Instrument], id: &String) -> (r: Option<usize>)
    ensures
        r matches Some(i) ==> i < instruments@.len() && instrument_lookup(instruments@, id@)
            == Some(instruments@[i as int]),
        r is None ==> instrument_lookup(instruments@, id@) is None,
{
    let mut i: usize = 0;
    proof {
        assert(instruments@.skip(0) =~= instruments@);
    }
    while i < instruments.len()
        invariant
            i <= instruments@.len(),
            instrument_lookup(instruments@, id@) == instrument_lookup(
                instruments@.skip(i as int),
                id@,
            ),
        decreases instruments.len() - i,
    {
        proof {
            assert(instruments@.skip(i as int)[0] == instruments@[i as int]);
            assert(instruments@.skip(i as int).drop_first() =~= instruments@.skip(i + 1));
        }
        if *instruments[i].id() == *id {
            return Some(i);
        }
        i = i + 1;
    }
    None
}

/// Contract size for P&L in money terms: futures carry their own; options
/// inherit the underlying future's (a 10-lot option on 1000-bbl contracts
/// moving $0.50/bbl is $5,000). Everything else counts 1.
pub fn contract_size(inst: &Instrument, instruments: &[Instrument]) -> (r: Decimal)
    ensures
        r@ == spec_contract_size(*inst, instruments@),
{
    match inst {
        Instrument::Future(f) => f.contract_size,
        Instrument::EuropeanOption(o) => match find_instrument(instruments, &o.underlying) {
            Some(i) => match &instruments[i] {
                Instrument::Future(u) => u.contract_size,
                _ => Decimal::one(),
            },
            None => Decimal::one(),
        },
        _ => Decimal::one(),
    }
}

/// Value one deal on the day `valuation_date`, given the official mark
/// of its instrument (see [`official_mark`]). An instrument missing from
/// `instruments` or a failed mark gives the error. The P&L arithmetic must
/// not overflow a decimal (see [`checked_value_deal`]).
pub fn value_deal(
    deal: &Deal,
    instruments: &[Instrument],
    valuation_date: Date,
    mark: crate::error::Result<(Decimal, MarkSource)>,
) -> (r: crate::error::Result<Valuation>)
    requires
        pnl_defined(*deal, instruments@, mark),
    ensures
        is_deal_valuation(*deal, instruments@, valuation_date@, mark, r),
{
    let i = match find_instrument(instruments, &deal.instrument_id) {
        Some(i) => i,
        None => {
            proof {
                reveal_strlit("unknown instrument '");
                reveal_strlit("'");
            }
            return Err(
                Error::Pricer(
                    String::from_str("unknown instrument '").concat(
                        deal.instrument_id.as_str(),
                    ).concat("'"),
                ),
            );
        },
    };
    let inst = &instruments[i];
    let (m, source) = match mark {
        Ok(x) => x,
        Err(e) => return Err(e),
    };
    let size = contract_size(inst, instruments);
    let diff = match m.checked_sub(deal.price) {
        Some(d) => d,
        None => return Err(Error::Pricer(String::new())),
    };
    let scaled = match deal.signed_quantity().checked_mul(diff) {
        Some(x) => x,
        None => return Err(Error::Pricer(String::new())),
    };
    let pnl = match scaled.checked_mul(size) {
        Some(x) => x,
        None => return Err(Error::Pricer(String::new())),
    };
    let realized = match inst.maturity() {
        Some(mat) => mat.is_before(&valuation_date),
        None => false,
    };
    Ok(Valuation { mark: m, pnl, realized, source })
}

/// Whether valuing `deal` at `mark` involves no overflow.
pub(crate) fn pnl_ok(
    deal: &Deal,
    instruments: &[Instrument],
    mark: &crate::error::Result<(Decimal, MarkSource)>,
) -> (r: bool)
    ensures
        r == pnl_defined(*deal, instruments@, *mark),
{
    if let Some(i) = find_instrument(instruments, &deal.instrument_id) {
        if let Ok((m, _)) = mark {
            let size = contract_size(&instruments[i], instruments);
            return match m.checked_sub(deal.price) {
                Some(d) => match deal.signed_quantity().checked_mul(d) {
                    Some(x) => x.checked_mul(size).is_some(),
                    None => false,
                },
                None => false,
            };
        }
    }
    true
}

/// Value one deal as [`value_deal`] does, or `None` when its P&L
/// arithmetic overflows a decimal.
pub fn checked_value_deal(
    deal: &Deal,
    instruments: &[Instrument],
    valuation_date: Date,
    mark: crate::error::Result<(Decimal, MarkSource)>,
) -> (r: Option<crate::error::Result<Valuation>>)
    ensures
        r is Some <==> pnl_defined(*deal, instruments@, mark),
        r matches Some(v) ==> is_deal_valuation(*deal, instruments@, valuation_date@, mark, v),
{
    if !pnl_ok(deal, instruments, &mark) {
        return None;
    }
    Some(value_deal(deal, instruments, valuation_date, mark))
}

/// Mark a set of deals on the day `valuation_date`, one valued deal per
/// input deal, in order; `marks[i]` is the official mark of the
/// instrument of `deals[i]`. Deals that cannot be priced carry the error.
pub fn valuate_at(
    deals: &[Deal],
    instruments: &[Instrument],
    valuation_date: Date,
    marks: Vec<crate::error::Result<(Decimal, MarkSource)>>,
) -> (r: Vec<ValuedDeal>)
    requires
        marks@.len() == deals@.len(),
        forall|i: int|
            0 <= i < deals@.len() ==> pnl_defined(#[trigger] deals@[i], instruments@, marks@[i]),
    ensures
        r@.len() == deals@.len(),
        forall|i: int|
            0 <= i < deals@.len() ==> (#[trigger] r@[i]).deal == deals@[i] && is_deal_valuation(
                deals@[i],
                instruments@,
                valuation_date@,
                marks@[i],
                r@[i].valuation,
            ),
{
    let ghost all_marks = marks@;
    let mut marks = marks;
    let mut out: Vec<ValuedDeal> = Vec::new();
    let mut i: usize = 0;
    while i < deals.len()
        invariant
            i <= deals@.len(),
            all_marks.len() == deals@.len(),
            marks@ == all_marks.skip(i as int),
            out@.len() == i,
            forall|k: int|
                0 <= k < deals@.len() ==> pnl_defined(#[trigger] deals@[k], instruments@, all_marks[k]),
            forall|k: int|
                0 <= k < i ==> (#[trigger] out@[k]).deal == deals@[k] && is_deal_valuation(
                    deals@[k],
                    instruments@,
                    valuation_date@,
                    all_marks[k],
                    out@[k].valuation,
                ),
        decreases deals.len() - i,
    {
        let mark = marks.remove(0);
        proof {
            assert(mark == all_marks[i as int]);
            assert(marks@ =~= all_marks.skip(i + 1));
            assert(pnl_defined(deals@[i as int], instruments@, all_marks[i as int]));
        }
        let valuation = value_deal(&deals[i], instruments, valuation_date, mark);
        out.push(ValuedDeal { deal: deals[i].clone(), valuation });
        i = i + 1;
    }
    out
}

/// Sum of the P&L of the priced deals of `valued` whose realization is
/// `realized`, added in order from zero; `None` on overflow.
pub open spec fn pnl_total(valued: Seq<ValuedDeal>, realized: bool) -> Option<DecimalParts>
    decreases valued.len(),
{
    if valued.len() == 0 {
        Some(zero_parts())
    } else {
        let prev = pnl_total(valued.drop_last(), realized);
        match valued.last().valuation {
            Ok(v) => if v.realized == realized {
                match prev {
                    Some(acc) => checked_sum(acc, v.pnl@),
                    None => None,
                }
            } else {
                prev
            },
            Err(_) => prev,
        }
    }
}

/// Unpriced deals contribute nothing: appending a deal whose valuation
/// failed leaves both P&L totals as they were.
pub proof fn lemma_unpriced_deal_adds_nothing(valued: Seq<ValuedDeal>, d: ValuedDeal, realized: bool)
    requires
        d.valuation is Err,
    ensures
        pnl_total(valued.push(d), realized) == pnl_total(valued, realized),
{
    assert(valued.push(d).drop_last() =~= valued);
}

/// P&L totals of valued deals, or `None` when a sum overflows a decimal:
/// (realized, unrealized). Unpriced deals contribute nothing; callers
/// should report them.
pub fn try_pnl_totals(valued: &[ValuedDeal]) -> (r: Option<(Decimal, Decimal)>)
    ensures
        r is Some <==> (pnl_total(valued@, true) is Some && pnl_total(valued@, false) is Some),
        r matches Some((a, b)) ==> pnl_total(valued@, true) == Some(a@) && pnl_total(
            valued@,
            false,
        ) == Some(b@),
{
    let mut realized = Decimal::zero();
    let mut unrealized = Decimal::zero();
    let mut i: usize = 0;
    while i < valued.len()
        invariant
            i <= valued@.len(),
            pnl_total(valued@.take(i as int), true) == Some(realized@),
            pnl_total(valued@.take(i as int), false) == Some(unrealized@),
        decreases valued.len() - i,
    {
        proof {
            assert(valued@.take(i + 1).drop_last() =~= valued@.take(i as int));
            assert(valued@.take(i + 1).last() == valued@[i as int]);
        }
        if let Ok(val) = &valued[i].valuation {
            if val.realized {
                realized = match realized.checked_add(val.pnl) {
                    Some(x) => x,
                    None => {
                        proof {
                            lemma_total_failure_persists(valued@, i + 1, true);
                        }
                        return None;
                    },
                };
            } else {
                unrealized = match unrealized.checked_add(val.pnl) {
                    Some(x) => x,
                    None => {
                        proof {
                            lemma_total_failure_persists(valued@, i + 1, false);
                        }
                        return None;
                    },
                };
            }
        }
        i = i + 1;
    }
    proof {
        assert(valued@.take(valued@.len() as int) =~= valued@);
    }
    Some((realized, unrealized))
}

/// Once a total overflows on a prefix of the valued deals, it overflows.
proof fn lemma_total_failure_persists(valued: Seq<ValuedDeal>, n: int, realized: bool)
    requires
        0 <= n <= valued.len(),
        pnl_total(valued.take(n), realized) is None,
    ensures
        pnl_total(valued, realized) is None,
    decreases valued.len() - n,
{
    if n == valued.len() {
        assert(valued.take(n) =~= valued);
    } else {
        assert(valued.take(n + 1).drop_last() =~= valued.take(n));
        lemma_total_failure_persists(valued, n + 1, realized);
    }
}

/// P&L totals of valued deals: (realized, unrealized). Unpriced deals
/// contribute nothing; callers should report them. The sums must not
/// overflow a decimal (see [`try_pnl_totals`]).
pub fn pnl_totals(valued: &[ValuedDeal]) -> (r: (Decimal, Decimal))
    requires
        pnl_total(valued@, true) is Some,
        pnl_total(valued@, false) is Some,
    ensures
        pnl_total(valued@, true) == Some(r.0@),
        pnl_total(valued@, false) == Some(r.1@),
{
    match try_pnl_totals(valued) {
        Some(t) => t,
        None => (Decimal::zero(), Decimal::zero()),
    }
}

} // verus!
