use crate::case::{
    action_steps_to, after_action, attach_model, entry_fires, entry_outcome,
    lemma_condition_steps_elim, lemma_condition_steps_intro, lemma_entry_fires_elim,
    lemma_entry_fires_intro, run_steps_to, step_taken, ActionModel, GroupModel,
};
use crate::when::checks_to;
use vstd::prelude::*;

verus! {

/// An entry declared without a condition is passed over: the walk of the
/// remaining entries is the walk of the whole group.
pub proof fn lemma_entry_without_condition_skipped<
    C,
    E,
    W: Fn(&C) -> Result<bool, E>,
    T: Fn(&C) -> Result<C, E>,
>(
    a_opt: Option<ActionModel<W, T>>,
    rest: GroupModel<W, T>,
    changed: bool,
    c0: C,
    c1: C,
    r: Result<bool, E>,
)
    requires
        run_steps_to(rest, changed, c0, c1, r),
    ensures
        run_steps_to(seq![(None, a_opt)] + rest, changed, c0, c1, r),
{
    let g = seq![(None, a_opt)] + rest;
    assert(g.subrange(1, g.len() as int) =~= rest);
    assert(g[0] == (None::<W>, a_opt));
}

/// A condition that answers `Ok(false)` fires nothing: its action — whatever
/// it is — does not run, the context is left as the condition saw it, and
/// the walk continues with the remaining entries.
pub proof fn lemma_unmatched_condition_steps<
    C,
    E,
    W: Fn(&C) -> Result<bool, E>,
    T: Fn(&C) -> Result<C, E>,
>(
    w: W,
    a_opt: Option<ActionModel<W, T>>,
    rest: GroupModel<W, T>,
    changed: bool,
    c0: C,
    c1: C,
    r: Result<bool, E>,
)
    requires
        checks_to(w, c0, Ok(false)),
        run_steps_to(rest, changed, c0, c1, r),
    ensures
        run_steps_to(seq![(Some(w), a_opt)] + rest, changed, c0, c1, r),
{
    let g = seq![(Some(w), a_opt)] + rest;
    assert(g.subrange(1, g.len() as int) =~= rest);
    assert(g[0].0 == Some(w));
    assert(checks_to(g[0].0->0, c0, Ok::<bool, E>(false)));
    assert(entry_outcome(g, Ok::<bool, E>(false), changed, c0, c1, r));
    lemma_condition_steps_intro(g, Ok(false), changed, c0, c1, r);
}

/// A condition that answers an error aborts the walk at once: the error is
/// reported as is, the attached action never runs, no later entry is
/// consulted, and the context stays exactly as the condition saw it.
pub proof fn lemma_condition_error_aborts<
    C,
    E,
    W: Fn(&C) -> Result<bool, E>,
    T: Fn(&C) -> Result<C, E>,
>(
    w: W,
    a_opt: Option<ActionModel<W, T>>,
    rest: GroupModel<W, T>,
    changed: bool,
    c0: C,
    e: E,
)
    requires
        checks_to(w, c0, Err(e)),
    ensures
        run_steps_to(seq![(Some(w), a_opt)] + rest, changed, c0, c0, Err(e)),
{
    let g = seq![(Some(w), a_opt)] + rest;
    assert(g[0].0 == Some(w));
    assert(checks_to(g[0].0->0, c0, Err::<bool, E>(e)));
    assert(entry_outcome(g, Err::<bool, E>(e), changed, c0, c0, Err::<bool, E>(e)));
    lemma_condition_steps_intro(g, Err(e), changed, c0, c0, Err(e));
}

/// A condition that answers `Ok(true)` counts as a firing even when no
/// action was attached to it: the walk of the remaining entries continues
/// with the "anything fired" flag raised, whatever it was before.
pub proof fn lemma_matched_condition_alone_fires<
    C,
    E,
    W: Fn(&C) -> Result<bool, E>,
    T: Fn(&C) -> Result<C, E>,
>(
    w: W,
    rest: GroupModel<W, T>,
    changed: bool,
    c0: C,
    c1: C,
    r: Result<bool, E>,
)
    requires
        checks_to(w, c0, Ok(true)),
        run_steps_to(rest, true, c0, c1, r),
    ensures
        run_steps_to(seq![(Some(w), None)] + rest, changed, c0, c1, r),
{
    let g = seq![(Some(w), None)] + rest;
    assert(g.subrange(1, g.len() as int) =~= rest);
    assert(g[0].0 == Some(w));
    assert(g[0].1 == None::<ActionModel<W, T>>);
    assert(checks_to(g[0].0->0, c0, Ok::<bool, E>(true)));
    assert(entry_outcome(g, Ok::<bool, E>(true), changed, c0, c1, r));
    lemma_condition_steps_intro(g, Ok(true), changed, c0, c1, r);
}

/// Conditions and actions run strictly left to right, fully interleaved:
/// when a condition matches and its action succeeds, the remaining entries
/// are walked against the very context that action left behind, with the
/// "anything fired" flag raised.
pub proof fn lemma_matched_action_steps<
    C,
    E,
    W: Fn(&C) -> Result<bool, E>,
    T: Fn(&C) -> Result<C, E>,
>(
    w: W,
    a: ActionModel<W, T>,
    rest: GroupModel<W, T>,
    changed: bool,
    c0: C,
    cm: C,
    ar: Result<bool, E>,
    c1: C,
    r: Result<bool, E>,
)
    requires
        checks_to(w, c0, Ok(true)),
        action_steps_to(a, c0, cm, ar),
        ar is Ok,
        run_steps_to(rest, true, cm, c1, r),
    ensures
        run_steps_to(seq![(Some(w), Some(a))] + rest, changed, c0, c1, r),
{
    let g = seq![(Some(w), Some(a))] + rest;
    assert(g.subrange(1, g.len() as int) =~= rest);
    assert(g[0].0 == Some(w));
    assert(g[0].1 == Some(a));
    assert(action_steps_to(g[0].1->0, c0, cm, ar));
    assert(after_action(g, cm, ar, c1, r));
    lemma_entry_fires_intro(g, cm, ar, c0, c1, r);
    assert(checks_to(g[0].0->0, c0, Ok::<bool, E>(true)));
    assert(entry_outcome(g, Ok::<bool, E>(true), changed, c0, c1, r));
    lemma_condition_steps_intro(g, Ok(true), changed, c0, c1, r);
}

/// An action that answers an error aborts the walk at once: the error is
/// reported as is, no later entry is consulted, and the context is what the
/// failing action left behind.
pub proof fn lemma_action_error_aborts<
    C,
    E,
    W: Fn(&C) -> Result<bool, E>,
    T: Fn(&C) -> Result<C, E>,
>(
    w: W,
    a: ActionModel<W, T>,
    rest: GroupModel<W, T>,
    changed: bool,
    c0: C,
    cm: C,
    e: E,
)
    requires
        checks_to(w, c0, Ok(true)),
        action_steps_to(a, c0, cm, Err(e)),
    ensures
        run_steps_to(seq![(Some(w), Some(a))] + rest, changed, c0, cm, Err(e)),
{
    let g = seq![(Some(w), Some(a))] + rest;
    assert(g[0].0 == Some(w));
    assert(g[0].1 == Some(a));
    assert(action_steps_to(g[0].1->0, c0, cm, Err::<bool, E>(e)));
    assert(after_action(g, cm, Err::<bool, E>(e), cm, Err::<bool, E>(e)));
    lemma_entry_fires_intro(g, cm, Err(e), c0, cm, Err(e));
    assert(checks_to(g[0].0->0, c0, Ok::<bool, E>(true)));
    assert(entry_outcome(g, Ok::<bool, E>(true), changed, c0, cm, Err::<bool, E>(e)));
    lemma_condition_steps_intro(g, Ok(true), changed, c0, cm, Err(e));
}

/// Nesting propagates: when a condition matches and its action is a nested
/// group whose own walk succeeds, the outer group reports a firing — even
/// when nothing fired inside the nested group itself.
pub proof fn lemma_nested_group_fires<
    C,
    E,
    W: Fn(&C) -> Result<bool, E>,
    T: Fn(&C) -> Result<C, E>,
>(
    w: W,
    sub: GroupModel<W, T>,
    changed: bool,
    c0: C,
    cm: C,
    fired: bool,
)
    requires
        checks_to(w, c0, Ok(true)),
        run_steps_to(sub, false, c0, cm, Ok(fired)),
    ensures
        run_steps_to(seq![(Some(w), Some(ActionModel::Group(sub)))], changed, c0, cm, Ok(true)),
{
    let a = ActionModel::Group(sub);
    assert(action_steps_to(a, c0, cm, Ok::<bool, E>(fired)));
    let empty = Seq::<(Option<W>, Option<ActionModel<W, T>>)>::empty();
    assert(run_steps_to(empty, true, cm, cm, Ok::<bool, E>(true)));
    lemma_matched_action_steps(w, a, empty, changed, c0, cm, Ok(fired), cm, Ok(true));
    assert(seq![(Some(w), Some(a))] + empty =~= seq![(Some(w), Some(a))]);
}

/// Declaring an action twice in a row, with no condition in between, keeps
/// only the later one: attaching is last-wins.
pub proof fn lemma_attach_last_wins<W, T>(
    g: GroupModel<W, T>,
    first: ActionModel<W, T>,
    second: ActionModel<W, T>,
)
    ensures
        attach_model(attach_model(g, first), second) == attach_model(g, second),
{
    assert(attach_model(attach_model(g, first), second) =~= attach_model(g, second));
}

/// Every condition declared in `g` can answer `Ok(false)` on a context
/// worth `c`.
pub open spec fn no_condition_matches<
    C,
    E,
    W: Fn(&C) -> Result<bool, E>,
    T: Fn(&C) -> Result<C, E>,
>(g: GroupModel<W, T>, c: C) -> bool {
    forall|i: int|
        0 <= i < g.len() && (#[trigger] g[i]).0 is Some ==> checks_to(g[i].0->0, c, Ok(false))
}

/// Once something has fired, a walk that ends without error reports `true`:
/// the "anything fired" flag is never lowered.
pub proof fn lemma_fired_is_reported<C, E, W: Fn(&C) -> Result<bool, E>, T: Fn(&C) -> Result<C, E>>(
    g: GroupModel<W, T>,
    changed: bool,
    c0: C,
    c1: C,
    fired: bool,
)
    requires
        run_steps_to(g, changed, c0, c1, Ok(fired)),
    ensures
        changed ==> fired,
    decreases g.len(),
{
    let r = Ok::<bool, E>(fired);
    if g.len() > 0 {
        let rest = g.subrange(1, g.len() as int);
        if g[0].0 is None {
            lemma_fired_is_reported(rest, changed, c0, c1, fired);
        } else {
            lemma_condition_steps_elim(g, changed, c0, c1, r);
            let wr = choose|wr: Result<bool, E>|
                #[trigger] checks_to(g[0].0->0, c0, wr) && entry_outcome(g, wr, changed, c0, c1, r);
            if wr is Err {
                // the walk would have reported that error, not Ok(fired)
            } else if wr->Ok_0 == false {
                lemma_fired_is_reported(rest, changed, c0, c1, fired);
            } else if g[0].1 is None {
                lemma_fired_is_reported(rest, true, c0, c1, fired);
            } else {
                assert(entry_fires(g, c0, c1, r));
                lemma_entry_fires_elim(g, c0, c1, r);
                let (cm, ar) = choose|cm: C, ar: Result<bool, E>|
                    #[trigger] step_taken(cm, ar) && action_steps_to(g[0].1->0, c0, cm, ar)
                        && after_action(g, cm, ar, c1, r);
                if ar is Err {
                    // the walk would have reported that error, not Ok(fired)
                } else {
                    lemma_fired_is_reported(rest, true, cm, c1, fired);
                }
            }
        }
    }
}

/// A walk that reports `Ok(false)` fired nothing: every condition it met
/// answered `Ok(false)`, and — conditions being read-only — the context
/// comes out exactly as it went in.
pub proof fn lemma_nothing_fired_means_no_match<
    C,
    E,
    W: Fn(&C) -> Result<bool, E>,
    T: Fn(&C) -> Result<C, E>,
>(g: GroupModel<W, T>, c0: C, c1: C)
    requires
        run_steps_to(g, false, c0, c1, Ok(false)),
    ensures
        c1 == c0,
        no_condition_matches(g, c0),
    decreases g.len(),
{
    let r = Ok::<bool, E>(false);
    if g.len() > 0 {
        let rest = g.subrange(1, g.len() as int);
        if g[0].0 is None {
            lemma_nothing_fired_means_no_match(rest, c0, c1);
            assert forall|i: int|
                0 <= i < g.len() && (#[trigger] g[i]).0 is Some implies checks_to(
                g[i].0->0,
                c0,
                Ok(false),
            ) by {
                assert(g[i] == rest[i - 1]);
            };
        } else {
            lemma_condition_steps_elim(g, false, c0, c1, r);
            let wr = choose|wr: Result<bool, E>|
                #[trigger] checks_to(g[0].0->0, c0, wr) && entry_outcome(g, wr, false, c0, c1, r);
            if wr is Err {
                // the walk would have reported that error, not Ok(false)
            } else if wr->Ok_0 == false {
                lemma_nothing_fired_means_no_match(rest, c0, c1);
                assert forall|i: int|
                    0 <= i < g.len() && (#[trigger] g[i]).0 is Some implies checks_to(
                    g[i].0->0,
                    c0,
                    Ok(false),
                ) by {
                    if i > 0 {
                        assert(g[i] == rest[i - 1]);
                    }
                };
            } else if g[0].1 is None {
                lemma_fired_is_reported(rest, true, c0, c1, false);
            } else {
                assert(entry_fires(g, c0, c1, r));
                lemma_entry_fires_elim(g, c0, c1, r);
                let (cm, ar) = choose|cm: C, ar: Result<bool, E>|
                    #[trigger] step_taken(cm, ar) && action_steps_to(g[0].1->0, c0, cm, ar)
                        && after_action(g, cm, ar, c1, r);
                if ar is Err {
                    // the walk would have reported that error, not Ok(false)
                } else {
                    lemma_fired_is_reported(rest, true, cm, c1, false);
                }
            }
        }
    }
}

/// When every condition of `g` can answer `Ok(false)` on `c0`, the whole
/// group can walk to `Ok(false)` and leave the context exactly as it was.
pub proof fn lemma_no_match_leaves_unchanged<
    C,
    E,
    W: Fn(&C) -> Result<bool, E>,
    T: Fn(&C) -> Result<C, E>,
>(g: GroupModel<W, T>, c0: C)
    requires
        no_condition_matches(g, c0),
    ensures
        run_steps_to(g, false, c0, c0, Ok(false)),
    decreases g.len(),
{
    let r = Ok::<bool, E>(false);
    if g.len() > 0 {
        let rest = g.subrange(1, g.len() as int);
        assert forall|i: int|
            0 <= i < rest.len() && (#[trigger] rest[i]).0 is Some implies checks_to(
            rest[i].0->0,
            c0,
            Ok(false),
        ) by {
            assert(rest[i] == g[i + 1]);
        };
        lemma_no_match_leaves_unchanged(rest, c0);
        if g[0].0 is None {
            lemma_entry_without_condition_skipped(g[0].1, rest, false, c0, c0, r);
            assert(seq![(None::<W>, g[0].1)] + rest =~= g);
        } else {
            assert(checks_to(g[0].0->0, c0, Ok::<bool, E>(false)));
            lemma_unmatched_condition_steps(g[0].0->0, g[0].1, rest, false, c0, c0, r);
            assert(seq![(Some(g[0].0->0), g[0].1)] + rest =~= g);
        }
    }
}

} // verus!
