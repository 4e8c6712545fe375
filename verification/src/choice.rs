//! Which of several values counts, among real numbers: the smallest, the last that is
//! close to another, the one with an index, any at all, and a channel within its range.
use crate::formula::{Node, number};
use crate::ideal::{Ideal, IdealRow, Reals, group_ideals, lemma_ideal_case, magnitude};
use crate::number::{CHANNEL_MAX, TEN_THOUSANDTH, ZERO};
use crate::trace::{any_present, chosen, clamped, closer, hit_index, is_nearest, nearest};
use vstd::prelude::*;

verus! {

/// Whether a value is a number or missing.
pub open spec fn may_be_given(value: Ideal) -> bool {
    value is Number || value is Missing
}

/// The smaller of two numbers, where a missing one does not count.
proof fn lemma_smaller(r: Reals, a: Node, b: Node, row: IdealRow)
    requires
        may_be_given(r.value(a, row)),
        may_be_given(r.value(b, row)),
    ensures
        r.value(closer(a, b), row) == (match (r.value(a, row), r.value(b, row)) {
            (Ideal::Number(x), Ideal::Number(y)) => Ideal::Number(
                if y < x {
                    y
                } else {
                    x
                },
            ),
            (Ideal::Number(x), _) => Ideal::Number(x),
            (_, other) => other,
        }),
{
    broadcast use group_ideals;

}

/// The nearest of some parameters is missing exactly if all are. Else it is one of
/// them, and none is smaller.
pub proof fn law_smallest(r: Reals, ts: Seq<Node>, row: IdealRow)
    requires
        ts.len() > 0,
        forall|i: int| 0 <= i < ts.len() ==> may_be_given(r.value(#[trigger] ts[i], row)),
    ensures
        match r.value(nearest(ts), row) {
            Ideal::Missing => forall|i: int|
                0 <= i < ts.len() ==> r.value(#[trigger] ts[i], row) is Missing,
            Ideal::Number(t) => {
                &&& exists|i: int|
                    0 <= i < ts.len() && r.value(#[trigger] ts[i], row) == Ideal::Number(t)
                &&& forall|i: int|
                    0 <= i < ts.len() ==> (r.value(#[trigger] ts[i], row) matches Ideal::Number(
                        other,
                    ) ==> t <= other)
            },
            _ => false,
        },
    decreases ts.len(),
{
    if ts.len() == 1 {
        assert(nearest(ts) == ts[0]);
        assert(may_be_given(r.value(ts[0], row)));
    } else {
        let before = ts.drop_last();
        let last = ts.last();
        assert(last == ts[ts.len() - 1]);
        assert forall|i: int| 0 <= i < before.len() implies may_be_given(
            r.value(#[trigger] before[i], row),
        ) by {
            assert(before[i] == ts[i]);
        }
        law_smallest(r, before, row);
        lemma_smaller(r, nearest(before), last, row);
        assert forall|i: int| 0 <= i < ts.len() - 1 implies #[trigger] ts[i] == before[i] by {}
        match r.value(nearest(ts), row) {
            Ideal::Number(t) => {
                if r.value(last, row) == Ideal::Number(t) {
                    assert(r.value(ts[ts.len() - 1], row) == Ideal::Number(t));
                } else {
                    let i = choose|i: int|
                        0 <= i < before.len() && r.value(#[trigger] before[i], row)
                            == Ideal::Number(t);
                    assert(r.value(ts[i], row) == Ideal::Number(t));
                }
            },
            _ => {},
        }
    }
}

/// Whether parameter `i` is there and within a ten-thousandth of `t`.
pub open spec fn near_to(r: Reals, ts: Seq<Node>, i: int, t: Ideal, row: IdealRow) -> bool {
    match (r.value(ts[i], row), t) {
        (Ideal::Number(a), Ideal::Number(b)) => magnitude(a - b) < (r.number)(TEN_THOUSANDTH),
        _ => false,
    }
}

proof fn lemma_near(r: Reals, t: Node, near: Node, row: IdealRow)
    requires
        may_be_given(r.value(t, row)),
        may_be_given(r.value(near, row)),
    ensures
        (r.value(is_nearest(t, near), row) == Ideal::Truth(true)) == (match (
            r.value(t, row),
            r.value(near, row),
        ) {
            (Ideal::Number(a), Ideal::Number(b)) => magnitude(a - b) < (r.number)(TEN_THOUSANDTH),
            _ => false,
        }),
{
    broadcast use group_ideals;

}

/// The sphere that is hit is the last whose parameter is close to the nearest; none
/// is hit exactly if no parameter is.
pub proof fn law_last_close(r: Reals, ts: Seq<Node>, near: Node, row: IdealRow)
    requires
        ts.len() <= i32::MAX,
        forall|i: int| 0 <= i < ts.len() ==> may_be_given(r.value(#[trigger] ts[i], row)),
        may_be_given(r.value(near, row)),
    ensures
        match r.value(hit_index(ts, near), row) {
            Ideal::Missing => forall|i: int|
                0 <= i < ts.len() ==> !#[trigger] near_to(r, ts, i, r.value(near, row), row),
            Ideal::Index(k) => {
                &&& 0 <= k < ts.len()
                &&& near_to(r, ts, k as int, r.value(near, row), row)
                &&& forall|i: int|
                    k < i < ts.len() ==> !#[trigger] near_to(r, ts, i, r.value(near, row), row)
            },
            _ => false,
        },
    decreases ts.len(),
{
    broadcast use group_ideals;

    if ts.len() > 0 {
        let before = ts.drop_last();
        let last = ts.last();
        let t = r.value(near, row);
        assert(last == ts[ts.len() - 1]);
        assert forall|i: int| 0 <= i < before.len() implies may_be_given(
            r.value(#[trigger] before[i], row),
        ) by {
            assert(before[i] == ts[i]);
        }
        law_last_close(r, before, near, row);
        lemma_near(r, last, near, row);
        assert forall|i: int| 0 <= i < before.len() implies #[trigger] near_to(r, ts, i, t, row)
            == near_to(r, before, i, t, row) by {
            assert(before[i] == ts[i]);
        }
        let k = ts.len() - 1;
        assert((r.value(is_nearest(last, near), row) == Ideal::Truth(true)) == near_to(
            r,
            ts,
            k,
            t,
            row,
        ));
        assert(r.value(Node::Index(k as i32), row) == Ideal::Index(k as i32));
        assert(r.value(hit_index(ts, near), row) == if near_to(r, ts, k, t, row) {
            Ideal::Index(k as i32)
        } else {
            r.value(hit_index(before, near), row)
        });
    }
}

/// The choice by an index is the option with that index; without one it is the
/// other value.
pub proof fn law_choice(
    r: Reals,
    hit: Node,
    options: Seq<Node>,
    otherwise: Node,
    row: IdealRow,
)
    requires
        options.len() <= i32::MAX,
        r.value(hit, row) is Index || r.value(hit, row) is Missing,
    ensures
        r.value(chosen(hit, options, otherwise), row) == (match r.value(hit, row) {
            Ideal::Index(k) => if 0 <= k < options.len() {
                r.value(options[k as int], row)
            } else {
                r.value(otherwise, row)
            },
            _ => r.value(otherwise, row),
        }),
    decreases options.len(),
{
    broadcast use group_ideals;

    if options.len() > 0 {
        let k = options.len() - 1;
        law_choice(r, hit, options.drop_last(), otherwise, row);
        assert(r.value(Node::Index(k as i32), row) == Ideal::Index(k as i32));
        assert(options.last() == options[k]);
    }
}

/// Whether any of some values is there.
pub proof fn law_any(r: Reals, ts: Seq<Node>, row: IdealRow)
    ensures
        r.value(any_present(ts), row) == Ideal::Truth(
            exists|i: int| 0 <= i < ts.len() && r.value(#[trigger] ts[i], row) !is Missing,
        ),
    decreases ts.len(),
{
    broadcast use group_ideals;

    if ts.len() > 0 {
        let before = ts.drop_last();
        law_any(r, before, row);
        assert forall|i: int| 0 <= i < ts.len() - 1 implies #[trigger] ts[i] == before[i] by {}
        assert(ts.last() == ts[ts.len() - 1]);
        if exists|i: int| 0 <= i < before.len() && r.value(#[trigger] before[i], row) !is Missing {
            let i = choose|i: int|
                0 <= i < before.len() && r.value(#[trigger] before[i], row) !is Missing;
            assert(r.value(ts[i], row) !is Missing);
        }
    }
}

/// The number from 0 to 255 that is closest to a number.
pub open spec fn within_channel(x: real) -> real {
    if x < 0 as real {
        0 as real
    } else if x > 255 as real {
        255 as real
    } else {
        x
    }
}

/// A channel is the number from 0 to 255 that is closest to what it is made of.
pub proof fn law_within_channel(r: Reals, value: Node, row: IdealRow)
    requires
        r.is_faithful(),
        r.value(value, row) is Number,
    ensures
        r.value(clamped(value), row) == Ideal::Number(
            within_channel(r.value(value, row)->Number_0),
        ),
{
    broadcast use group_ideals;

    let upper = value.gt(number(CHANNEL_MAX)).case(number(CHANNEL_MAX), value);
    lemma_ideal_case(r, value.gt(number(CHANNEL_MAX)), number(CHANNEL_MAX), value, row);
    lemma_ideal_case(r, value.lt(number(ZERO)), number(ZERO), upper, row);
}

} // verus!
