//! Whom the brain yields to: a twist, a head or a skill that is not its own, and nothing else.

use vstd::prelude::*;

use crate::arbiter::{differs, head_strays, strays, Mind, Status, Verdict};
use crate::behaviours::{level_head, Intents, Kind, Level, Limits};
use crate::deciding::is_free;
use crate::world::World;

verus! {

/// `a` and `b` are more than 0.02 apart.
pub open spec fn is_far(a: i64, b: i64) -> bool {
    a - b > 20_000_000 || b - a > 20_000_000
}

/// What yielding looks like: status, nothing active, one neutral if something was, and five
/// seconds of it from now.
pub open spec fn has_yielded(m: Mind, w: World, v: Verdict) -> bool {
    &&& v.status == Status::Yielded
    &&& v.mind.active is None
    &&& v.mind.foreign_until == Some((w.t + 5_000_000_000) as i128)
    &&& m.active is Some ==> v.intents == Some(Intents::rest())
    &&& m.active is None ==> v.intents is None
}

proof fn lemma_yields_at_once(m: Mind, w: World, limits: Limits, bearing: Option<i64>)
    requires
        m.on,
        w.have_state,
        m.is_foreign(w),
    ensures
        has_yielded(m, w, m.ticked(w, limits, bearing)),
{
    assert(m.wary(w).is_yielding(w));
    assert(m.ticked(w, limits, bearing) == m.wary(w).stopped(w, Status::Yielded, m.kind()));
}

/// A person who drives the robot has it: a requested twist of which some component, forward,
/// sideways or turning, is far from nothing, some from the last twist sent and some from the
/// one before, silences the brain at once, unless its own twist has only just changed.
pub proof fn law_foreign_twist_is_yielded_to(
    m: Mind,
    w: World,
    limits: Limits,
    bearing: Option<i64>,
    i: int,
    j: int,
    k: int,
)
    requires
        m.on,
        w.have_state,
        0 <= i < 3,
        0 <= j < 3,
        0 <= k < 3,
        is_far(w.move_requested@[i], 0),
        is_far(w.move_requested@[j], m.last_sent_twist[j]),
        is_far(w.move_requested@[k], m.prev_sent_twist[k]),
        m.twist_changed_at matches Some(t) ==> w.t - t > 400_000_000,
    ensures
        has_yielded(m, w, m.ticked(w, limits, bearing)),
{
    let z = seq![0i64, 0, 0];
    assert(z[i] == 0);
    assert(differs(w.move_requested@, z));
    assert(differs(w.move_requested@, m.last_sent_twist));
    assert(differs(w.move_requested@, m.prev_sent_twist));
    assert(m.is_foreign_twist(w));
    lemma_yields_at_once(m, w, limits, bearing);
}

/// A joint is asked for more than 0.05 outside the swing of what was sent.
pub open spec fn is_outside(asked: i64, base: int, swing: int) -> bool {
    asked > base + swing + 50_000_000 || asked < base - swing - 50_000_000
}

/// So does a head of which some joint is asked far from level, some far from the last head sent
/// and some far from the one before.
pub proof fn law_foreign_head_is_yielded_to(
    m: Mind,
    w: World,
    limits: Limits,
    bearing: Option<i64>,
    i: int,
    j: int,
    k: int,
)
    requires
        m.on,
        w.have_state,
        0 <= i < 4,
        0 <= j < 4,
        0 <= k < 4,
        is_outside(w.head_requested@[i], 0, 0),
        m.last_sent_head[j].amp >= 0,
        is_outside(
            w.head_requested@[j],
            m.last_sent_head[j].base as int,
            m.last_sent_head[j].amp as int,
        ),
        m.prev_sent_head[k].amp >= 0,
        is_outside(
            w.head_requested@[k],
            m.prev_sent_head[k].base as int,
            m.prev_sent_head[k].amp as int,
        ),
        m.head_changed_at matches Some(t) ==> w.t - t > 400_000_000,
    ensures
        has_yielded(m, w, m.ticked(w, limits, bearing)),
{
    let z = level_head(0, 0, 0, 0)@;
    assert(z[i].base == 0 && z[i].amp == 0);
    assert(head_strays(w.head_requested@, z));
    assert(head_strays(w.head_requested@, m.last_sent_head));
    assert(head_strays(w.head_requested@, m.prev_sent_head));
    assert(m.is_foreign_head(w));
    lemma_yields_at_once(m, w, limits, bearing);
}

/// So does a skill the brain never asks for, and a pick when it is not picking and has not just
/// been.
pub proof fn law_foreign_skill_is_yielded_to(
    m: Mind,
    w: World,
    limits: Limits,
    bearing: Option<i64>,
)
    requires
        m.on,
        w.have_state,
        ({
            ||| w.policy@ == "kick_left"@
            ||| w.policy@ == "kick_right"@
            ||| w.policy@ == "roulade"@
            ||| w.policy@ == "ground_pick"@ && m.kind() != Some(Kind::GroundPick) && !m.is_barred(
                w,
                Kind::GroundPick,
            )
        }),
    ensures
        has_yielded(m, w, m.ticked(w, limits, bearing)),
{
    assert(m.is_foreign_skill(w));
    lemma_yields_at_once(m, w, limits, bearing);
}

/// Two twists are near in every component.
pub open spec fn is_near(a: Seq<i64>, b: Seq<i64>) -> bool {
    forall|k: int| 0 <= k < 3 ==> !is_far(#[trigger] a[k], b[k])
}

/// A head is asked for within what was sent of it.
pub open spec fn is_within(asked: Seq<i64>, sent: Seq<Level>) -> bool {
    forall|k: int|
        0 <= k < 4 ==> sent[k].amp >= 0 && !is_outside(
            #[trigger] asked[k],
            sent[k].base as int,
            sent[k].amp as int,
        )
}

/// Nobody has touched the robot: the requested twist is near nothing, or one of the last two
/// sent, or those have only just changed; so is the head, within what was sent of it; and a gait
/// drives it, or the pick that was asked for.
pub open spec fn is_untouched(m: Mind, w: World) -> bool {
    &&& {
        ||| is_near(w.move_requested@, seq![0i64, 0, 0])
        ||| is_near(w.move_requested@, m.last_sent_twist)
        ||| is_near(w.move_requested@, m.prev_sent_twist)
        ||| m.twist_changed_at matches Some(t) && w.t - t <= 400_000_000
    }
    &&& {
        ||| forall|k: int|
            0 <= k < 4 ==> -50_000_000 <= #[trigger] w.head_requested@[k] <= 50_000_000
        ||| is_within(w.head_requested@, m.last_sent_head)
        ||| is_within(w.head_requested@, m.prev_sent_head)
        ||| m.head_changed_at matches Some(t) && w.t - t <= 400_000_000
    }
    &&& {
        ||| w.policy@ == "stand"@
        ||| w.policy@ == "walk"@
        ||| w.policy@ == "sit"@
        ||| w.policy@ == "ground_pick"@ && (m.kind() == Some(Kind::GroundPick) || m.is_barred(
            w,
            Kind::GroundPick,
        ))
    }
}

/// The brain yields to nobody without cause: untouched, and with the quiet time over, it does
/// not.
pub proof fn law_untouched_brain_does_not_yield(
    m: Mind,
    w: World,
    limits: Limits,
    bearing: Option<i64>,
)
    requires
        is_untouched(m, w),
        m.foreign_until matches Some(t) ==> w.t >= t,
    ensures
        m.ticked(w, limits, bearing).status != Status::Yielded,
        m.on && w.have_state && w.is_standing() ==> is_free(m, w),
{
    reveal_strlit("stand");
    reveal_strlit("walk");
    reveal_strlit("sit");
    reveal_strlit("kick_left");
    reveal_strlit("kick_right");
    reveal_strlit("roulade");
    reveal_strlit("ground_pick");
    assert("sit"@.len() == 3 && "stand"@.len() == 5 && "walk"@.len() == 4);
    assert("kick_left"@.len() == 9 && "kick_right"@.len() == 10);
    assert("roulade"@.len() == 7 && "ground_pick"@.len() == 11);
    assert(!m.is_foreign_skill(w));
    let z = level_head(0, 0, 0, 0)@;
    assert(!m.is_foreign_head(w)) by {
        let a = w.head_requested@;
        if forall|k: int| 0 <= k < 4 ==> -50_000_000 <= #[trigger] a[k] <= 50_000_000 {
            assert forall|k: int| 0 <= k < 4 implies !strays(#[trigger] a[k], z[k]) by {
                assert(z[k].base == 0 && z[k].amp == 0);
            }
            assert(!head_strays(a, z));
        } else if is_within(a, m.last_sent_head) {
            assert(!head_strays(a, m.last_sent_head));
        } else if is_within(a, m.prev_sent_head) {
            assert(!head_strays(a, m.prev_sent_head));
        }
    }
    assert(!m.is_foreign_twist(w)) by {
        let a = w.move_requested@;
        let zero = seq![0i64, 0, 0];
        if is_near(a, zero) {
            assert(!differs(a, zero));
        } else if is_near(a, m.last_sent_twist) {
            assert(!differs(a, m.last_sent_twist));
        } else if is_near(a, m.prev_sent_twist) {
            assert(!differs(a, m.prev_sent_twist));
        }
    }
    assert(!m.is_foreign(w));
}

} // verus!
