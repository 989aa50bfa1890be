use crate::then::{exec_context, exec_outcome, runs_to, then_callable, Then};
use crate::when::{checks_to, when_callable, When};
use vstd::prelude::*;

verus! {

/// An action attached to a condition: a leaf mutation, or a nested rule
/// group that is evaluated in full when the condition matches.
pub(crate) enum Action<W, T> {
    Leaf(Then<T>),
    Nested(Case<W, T>),
}

/// One declared entry: an optional condition and the action attached to it.
pub(crate) type Entry<W, T> = (Option<When<W>>, Option<Action<W, T>>);

/// The mathematical shape of an attached action: the leaf callback itself,
/// or the shape of the nested group. Display names play no part.
pub enum ActionModel<W, T> {
    Leaf(T),
    Group(Seq<(Option<W>, Option<ActionModel<W, T>>)>),
}

/// The mathematical shape of a rule group: its entries in declaration order,
/// each an optional condition callback paired with an optional action shape.
pub type GroupModel<W, T> = Seq<(Option<W>, Option<ActionModel<W, T>>)>;

/// The shape of an action as declared: the callback of a leaf, or the shape
/// of a nested group.
pub(crate) open spec fn action_model<W, T>(a: Action<W, T>) -> ActionModel<W, T>
    decreases a,
{
    match a {
        Action::Leaf(t) => ActionModel::Leaf(t@),
        Action::Nested(c) => ActionModel::Group(group_model(c.cases@)),
    }
}

/// The shape of one declared entry.
pub(crate) open spec fn entry_model<W, T>(e: Entry<W, T>) -> (Option<W>, Option<ActionModel<W, T>>)
    decreases e,
{
    (
        match e.0 {
            Some(w) => Some(w@),
            None => None,
        },
        match e.1 {
            Some(a) => Some(action_model(a)),
            None => None,
        },
    )
}

/// The shape of a sequence of declared entries.
pub(crate) open spec fn group_model<W, T>(s: Seq<Entry<W, T>>) -> GroupModel<W, T>
    decreases s,
{
    if s.len() == 0 {
        Seq::empty()
    } else {
        group_model(s.subrange(0, s.len() - 1)).push(entry_model(s[s.len() - 1]))
    }
}

proof fn lemma_group_model_index<W, T>(s: Seq<Entry<W, T>>)
    ensures
        group_model(s).len() == s.len(),
        forall|i: int| 0 <= i < s.len() ==> group_model(s)[i] == entry_model(s[i]),
    decreases s.len(),
{
    if s.len() > 0 {
        lemma_group_model_index(s.subrange(0, s.len() - 1));
    }
}

proof fn lemma_group_model_push<W, T>(s: Seq<Entry<W, T>>, e: Entry<W, T>)
    ensures
        group_model(s.push(e)) == group_model(s).push(entry_model(e)),
{
    assert(s.push(e).subrange(0, s.push(e).len() - 1) =~= s);
    assert(s.push(e)[s.push(e).len() - 1] == e);
}

/// Attaching an action to a group: it lands on the most recently declared
/// entry, replacing any action already attached there; with no entry to
/// attach to, the action is silently dropped.
pub open spec fn attach_model<W, T>(g: GroupModel<W, T>, a: ActionModel<W, T>) -> GroupModel<
    W,
    T,
> {
    if g.len() == 0 {
        g
    } else {
        g.update(g.len() - 1, (g[g.len() - 1].0, Some(a)))
    }
}

/// Holds exactly when walking the entries of `g` — with `changed` recording
/// whether anything has fired so far and the context worth `c0` — can leave
/// the context worth `c1` and report `r`. Conditions are consulted strictly
/// in declaration order; a condition that answers `Ok(true)` runs the action
/// attached to it, if any, and counts as a firing; a condition or action
/// that answers an error aborts the walk at once, reporting that error and
/// keeping whatever the context holds at that moment.
pub open spec fn run_steps_to<C, E, W: Fn(&C) -> Result<bool, E>, T: Fn(&C) -> Result<C, E>>(
    g: GroupModel<W, T>,
    changed: bool,
    c0: C,
    c1: C,
    r: Result<bool, E>,
) -> bool
    decreases g, 4int,
{
    if g.len() == 0 {
        c1 == c0 && r == Ok::<bool, E>(changed)
    } else {
        if g[0].0 is None {
            run_steps_to(g.subrange(1, g.len() as int), changed, c0, c1, r)
        } else {
            condition_steps(g, changed, c0, c1, r)
        }
    }
}

/// The first entry's condition answers something, and the walk goes on as
/// that answer demands.
pub open spec fn condition_steps<C, E, W: Fn(&C) -> Result<bool, E>, T: Fn(&C) -> Result<C, E>>(
    g: GroupModel<W, T>,
    changed: bool,
    c0: C,
    c1: C,
    r: Result<bool, E>,
) -> bool
    recommends
        g.len() > 0,
        g[0].0 is Some,
    decreases g, 3int,
{
    exists|wr: Result<bool, E>|
        #[trigger] checks_to(g[0].0->0, c0, wr) && entry_outcome(g, wr, changed, c0, c1, r)
}

/// What the walk of a non-empty group `g` does after its first condition
/// answered `wr`: an error aborts at once, `Ok(false)` moves on unchanged,
/// and `Ok(true)` runs the attached action, if any, before moving on with
/// the "anything fired" flag raised.
pub open spec fn entry_outcome<C, E, W: Fn(&C) -> Result<bool, E>, T: Fn(&C) -> Result<C, E>>(
    g: GroupModel<W, T>,
    wr: Result<bool, E>,
    changed: bool,
    c0: C,
    c1: C,
    r: Result<bool, E>,
) -> bool
    recommends
        g.len() > 0,
    decreases g, 2int,
{
    g.len() > 0 && match wr {
        Err(_) => c1 == c0 && r == wr,
        Ok(false) => run_steps_to(g.subrange(1, g.len() as int), changed, c0, c1, r),
        Ok(true) => if g[0].1 is None {
            run_steps_to(g.subrange(1, g.len() as int), true, c0, c1, r)
        } else {
            entry_fires(g, c0, c1, r)
        },
    }
}

/// The first entry's attached action runs, and the walk goes on as its
/// answer demands.
pub open spec fn entry_fires<C, E, W: Fn(&C) -> Result<bool, E>, T: Fn(&C) -> Result<C, E>>(
    g: GroupModel<W, T>,
    c0: C,
    c1: C,
    r: Result<bool, E>,
) -> bool
    recommends
        g.len() > 0,
        g[0].1 is Some,
    decreases g, 1int,
{
    g.len() > 0 && g[0].1 is Some && exists|cm: C, ar: Result<bool, E>|
        #[trigger] step_taken(cm, ar) && action_steps_to(g[0].1->0, c0, cm, ar) && after_action(
            g,
            cm,
            ar,
            c1,
            r,
        )
}

/// Holds of every pair of a context and an answer. An action's run is
/// described by such a pair, and this handle gives statements that quantify
/// over one a stable shape to match on.
pub open spec fn step_taken<C, E>(cm: C, ar: Result<bool, E>) -> bool {
    true
}

/// What the walk of a non-empty group `g` does after the action of its
/// first entry ran, leaving the context worth `cm` and answering `ar`: an
/// error aborts at once, and success moves on to the remaining entries with
/// the "anything fired" flag raised.
pub open spec fn after_action<C, E, W: Fn(&C) -> Result<bool, E>, T: Fn(&C) -> Result<C, E>>(
    g: GroupModel<W, T>,
    cm: C,
    ar: Result<bool, E>,
    c1: C,
    r: Result<bool, E>,
) -> bool
    recommends
        g.len() > 0,
    decreases g, 0int,
{
    g.len() > 0 && match ar {
        Err(_) => c1 == cm && r == ar,
        Ok(_) => run_steps_to(g.subrange(1, g.len() as int), true, cm, c1, r),
    }
}

/// Holds exactly when executing the action `a` on a context worth `c0` can
/// leave the context worth `c1` and report `r`: a leaf action installs the
/// replacement context its callback produces, and a nested group is walked
/// in full, starting from a fresh "anything fired" flag.
pub open spec fn action_steps_to<C, E, W: Fn(&C) -> Result<bool, E>, T: Fn(&C) -> Result<C, E>>(
    a: ActionModel<W, T>,
    c0: C,
    c1: C,
    r: Result<bool, E>,
) -> bool
    decreases a, 4int,
{
    match a {
        ActionModel::Leaf(t) => exists|tr: Result<C, E>|
            #[trigger] runs_to(t, c0, tr) && c1 == exec_context(c0, tr) && r == exec_outcome::<
                C,
                E,
            >(tr),
        ActionModel::Group(sub) => run_steps_to(sub, false, c0, c1, r),
    }
}

/// Walking a non-empty group whose first condition answered `wr` walks the
/// whole group: the step is sound for any state of the "anything fired"
/// flag.
pub(crate) proof fn lemma_condition_steps_intro<
    C,
    E,
    W: Fn(&C) -> Result<bool, E>,
    T: Fn(&C) -> Result<C, E>,
>(
    g: GroupModel<W, T>,
    wr: Result<bool, E>,
    changed: bool,
    c0: C,
    c1: C,
    r: Result<bool, E>,
)
    requires
        g.len() > 0,
        g[0].0 is Some,
        checks_to(g[0].0->0, c0, wr),
        entry_outcome(g, wr, changed, c0, c1, r),
    ensures
        run_steps_to(g, changed, c0, c1, r),
{
    assert(condition_steps(g, changed, c0, c1, r));
}

/// A walk of a non-empty group whose first entry has a condition began with
/// that condition answering something.
pub(crate) proof fn lemma_condition_steps_elim<
    C,
    E,
    W: Fn(&C) -> Result<bool, E>,
    T: Fn(&C) -> Result<C, E>,
>(
    g: GroupModel<W, T>,
    changed: bool,
    c0: C,
    c1: C,
    r: Result<bool, E>,
)
    requires
        g.len() > 0,
        g[0].0 is Some,
        run_steps_to(g, changed, c0, c1, r),
    ensures
        exists|wr: Result<bool, E>|
            #[trigger] checks_to(g[0].0->0, c0, wr) && entry_outcome(g, wr, changed, c0, c1, r),
{
    assert(condition_steps(g, changed, c0, c1, r));
}

/// A firing of the first entry's attached action consists of that action
/// running with some answer.
pub(crate) proof fn lemma_entry_fires_elim<
    C,
    E,
    W: Fn(&C) -> Result<bool, E>,
    T: Fn(&C) -> Result<C, E>,
>(g: GroupModel<W, T>, c0: C, c1: C, r: Result<bool, E>)
    requires
        entry_fires(g, c0, c1, r),
    ensures
        exists|cm: C, ar: Result<bool, E>|
            #[trigger] step_taken(cm, ar) && action_steps_to(g[0].1->0, c0, cm, ar)
                && after_action(g, cm, ar, c1, r),
{
}

/// Running the first entry's attached action with some answer `ar` makes the
/// entry fire.
pub(crate) proof fn lemma_entry_fires_intro<
    C,
    E,
    W: Fn(&C) -> Result<bool, E>,
    T: Fn(&C) -> Result<C, E>,
>(
    g: GroupModel<W, T>,
    cm: C,
    ar: Result<bool, E>,
    c0: C,
    c1: C,
    r: Result<bool, E>,
)
    requires
        g.len() > 0,
        g[0].1 is Some,
        action_steps_to(g[0].1->0, c0, cm, ar),
        after_action(g, cm, ar, c1, r),
    ensures
        entry_fires(g, c0, c1, r),
{
    assert(step_taken(cm, ar));
    assert(entry_fires(g, c0, c1, r));
}

/// Every condition callback of the group, and every callback of every action
/// at any depth, may be shown a context in any state.
pub open spec fn group_callable<C, E, W: Fn(&C) -> Result<bool, E>, T: Fn(&C) -> Result<C, E>>(
    g: GroupModel<W, T>,
) -> bool
    decreases g,
{
    forall|i: int| 0 <= i < g.len() ==> entry_callable::<C, E, W, T>(#[trigger] g[i])
}

/// Both callbacks of one entry, and everything below them, may be shown a
/// context in any state.
pub open spec fn entry_callable<C, E, W: Fn(&C) -> Result<bool, E>, T: Fn(&C) -> Result<C, E>>(
    e: (Option<W>, Option<ActionModel<W, T>>),
) -> bool
    decreases e,
{
    (match e.0 {
        Some(w) => when_callable::<C, E, W>(w),
        None => true,
    }) && (match e.1 {
        Some(a) => action_callable::<C, E, W, T>(a),
        None => true,
    })
}

/// Every callback reachable through the action, at any depth, may be shown a
/// context in any state.
pub open spec fn action_callable<C, E, W: Fn(&C) -> Result<bool, E>, T: Fn(&C) -> Result<C, E>>(
    a: ActionModel<W, T>,
) -> bool
    decreases a,
{
    match a {
        ActionModel::Leaf(t) => then_callable::<C, E, T>(t),
        ActionModel::Group(sub) => group_callable::<C, E, W, T>(sub),
    }
}

/// A rule group: an ordered sequence of named condition/action entries,
/// grown by chained declarations and evaluated once against a mutable
/// context. Its view is the group's shape, with display names erased.
pub struct Case<W, T> {
    #[allow(dead_code)]
    pub(crate) name: String,
    pub(crate) cases: Vec<Entry<W, T>>,
}

impl<W, T> View for Case<W, T> {
    type V = GroupModel<W, T>;

    closed spec fn view(&self) -> GroupModel<W, T> {
        group_model(self.cases@)
    }
}

impl<W, T> Case<W, T> {
    /// Create a new, empty case group under a display label.
    pub fn new<S: Into<String>>(name: S) -> (r: Self)
        ensures
            r@ == Seq::<(Option<W>, Option<ActionModel<W, T>>)>::empty(),
    {
        Case { name: name.into(), cases: Vec::new() }
    }

    /// Describe a new condition to test: a fresh entry is appended after all
    /// earlier ones, with no action attached yet.
    pub fn when<S: Into<String>>(self, name: S, f: W) -> (r: Self)
        ensures
            r@ == self@.push((Some(f), None)),
    {
        let mut s = self;
        let ghost before = s.cases@;
        let w = When::new(name, f);
        let ghost entry = (Some(w), None::<Action<W, T>>);
        s.cases.push((Some(w), None));
        proof {
            lemma_group_model_push(before, entry);
        }
        s
    }

    /// Describe an action to run when the most recently declared condition
    /// matches; it replaces any action already attached to that condition.
    pub fn then<S: Into<String>>(self, name: S, f: T) -> (r: Self)
        ensures
            r@ == attach_model(self@, ActionModel::Leaf(f)),
    {
        let mut s = self;
        s.push_action(Action::Leaf(Then::new(name, f)));
        s
    }

    fn push_action(&mut self, act: Action<W, T>)
        ensures
            final(self)@ == attach_model(old(self)@, action_model(act)),
    {
        let ghost before = self.cases@;
        let ghost act_m = action_model(act);
        match self.cases.pop() {
            Some(e) => {
                let ghost kept = e.0;
                self.cases.push((e.0, Some(act)));
                proof {
                    lemma_group_model_index(before);
                    lemma_group_model_push(
                        before.subrange(0, before.len() - 1),
                        (kept, Some(act)),
                    );
                    assert(group_model(before).update(
                        before.len() - 1,
                        (entry_model(before[before.len() - 1]).0, Some(act_m)),
                    ) =~= group_model(before.subrange(0, before.len() - 1)).push(
                        entry_model((kept, Some(act))),
                    )) by {
                        lemma_group_model_index(before.subrange(0, before.len() - 1));
                    };
                }
            },
            None => {},
        }
    }

    /// Describe a nested group of when/then clauses to run when the most
    /// recently declared condition matches: a fresh, empty group under the
    /// given label is handed to `f` to populate, and the group `f` returns
    /// is attached as that condition's action, replacing any action already
    /// attached there.
    pub fn then_case<S: Into<String>, F: FnOnce(Case<W, T>) -> Case<W, T>>(
        self,
        name: S,
        f: F,
    ) -> (r: Self)
        requires
            forall|c: Case<W, T>| c@.len() == 0 ==> #[trigger] call_requires(f, (c,)),
        ensures
            exists|sub: Case<W, T>|
                #[trigger] built_from(f, sub) && r@ == attach_model(
                    self@,
                    ActionModel::Group(sub@),
                ),
    {
        let mut s = self;
        let base = Case::new(name);
        let ghost base_g = base;
        let sub = f(base);
        let ghost sub_g = sub;
        s.push_action(Action::Nested(sub));
        proof {
            assert(built_from(f, sub_g));
        }
        s
    }

    /// Run all described statements against the context, in declaration
    /// order, and report whether anything fired, or the first error.
    pub fn run<C, E>(&self, ctx: &mut C) -> (r: Result<bool, E>) where
        W: Fn(&C) -> Result<bool, E>,
        T: Fn(&C) -> Result<C, E>,

        requires
            group_callable::<C, E, W, T>(self@),
        ensures
            run_steps_to(self@, false, *old(ctx), *final(ctx), r),
    {
        self.exec(ctx)
    }

    pub(crate) fn exec<C, E>(&self, ctx: &mut C) -> (r: Result<bool, E>) where
        W: Fn(&C) -> Result<bool, E>,
        T: Fn(&C) -> Result<C, E>,

        requires
            group_callable::<C, E, W, T>(self@),
        ensures
            run_steps_to(self@, false, *old(ctx), *final(ctx), r),
        decreases *self,
    {
        let ghost g = self@;
        let mut changed = false;
        let mut i: usize = 0;
        proof {
            lemma_group_model_index(self.cases@);
            assert(g.subrange(0, g.len() as int) =~= g);
        }
        while i < self.cases.len()
            invariant
                i <= self.cases.len(),
                g == self@,
                g.len() == self.cases@.len(),
                forall|j: int| 0 <= j < g.len() ==> g[j] == entry_model(self.cases@[j]),
                group_callable::<C, E, W, T>(g),
                forall|cf: C, rr: Result<bool, E>|
                    #[trigger] step_taken(cf, rr) && run_steps_to(
                        g.subrange(i as int, g.len() as int),
                        changed,
                        *ctx,
                        cf,
                        rr,
                    ) ==> run_steps_to(g, false, *old(ctx), cf, rr),
            decreases self.cases.len() - i,
        {
            let ghost changed0 = changed;
            let ghost c_head: C = *ctx;
            let ghost rest = g.subrange(i + 1, g.len() as int);
            proof {
                assert(g[i as int] == entry_model(self.cases@[i as int]));
                assert(entry_callable::<C, E, W, T>(g[i as int]));
                assert(g.subrange(i as int, g.len() as int) =~= seq![g[i as int]] + rest);
            }
            let entry = &self.cases[i];
            match &entry.0 {
                None => {
                    proof {
                        assert(g[i as int].0 is None);
                        assert forall|cf: C, rr: Result<bool, E>|
                            #[trigger] step_taken(cf, rr) && run_steps_to(
                                g.subrange(i + 1, g.len() as int),
                                changed0,
                                c_head,
                                cf,
                                rr,
                            ) implies run_steps_to(g, false, *old(ctx), cf, rr) by {
                            crate::laws::lemma_entry_without_condition_skipped(
                                g[i as int].1,
                                rest,
                                changed0,
                                c_head,
                                cf,
                                rr,
                            );
                            assert(seq![(None::<W>, g[i as int].1)] + rest =~= g.subrange(
                                i as int,
                                g.len() as int,
                            ));
                        };
                    }
                },
                Some(w) => {
                    proof {
                        assert(g[i as int].0 == Some(w@));
                        assert(when_callable::<C, E, W>(w@));
                    }
                    let wr = w.check(ctx);
                    match wr {
                        Err(e) => {
                            proof {
                                crate::laws::lemma_condition_error_aborts(
                                    w@,
                                    g[i as int].1,
                                    rest,
                                    changed0,
                                    c_head,
                                    e,
                                );
                                assert(seq![(Some(w@), g[i as int].1)] + rest =~= g.subrange(
                                    i as int,
                                    g.len() as int,
                                ));
                                assert(step_taken(c_head, Err::<bool, E>(e)));
                                assert(run_steps_to(g, false, *old(ctx), c_head, Err::<bool, E>(e)));
                            }
                            return Err(e);
                        },
                        Ok(true) => {
                            match &entry.1 {
                                Some(a) => {
                                    proof {
                                        assert(g[i as int].1 == Some(action_model(*a)));
                                        assert(action_callable::<C, E, W, T>(action_model(*a)));
                                        assert(decreases_to!(*self => self.cases));
                                        assert(decreases_to!(self.cases => self.cases@));
                                        assert(decreases_to!(self.cases@ => self.cases@[i as int]));
                                        assert(decreases_to!(
                                            self.cases@[i as int] => self.cases@[i as int].1
                                        ));
                                        assert(self.cases@[i as int].1 == Some(*a));
                                        assert(decreases_to!(
                                            self.cases@[i as int].1 => self.cases@[i as int].1->0
                                        ));
                                        assert(decreases_to!(*self => *a));
                                    }
                                    let ar = a.exec(ctx);
                                    match ar {
                                        Err(e) => {
                                            proof {
                                                crate::laws::lemma_action_error_aborts(
                                                    w@,
                                                    action_model(*a),
                                                    rest,
                                                    changed0,
                                                    c_head,
                                                    *ctx,
                                                    e,
                                                );
                                                assert(seq![(Some(w@), Some(action_model(*a)))]
                                                    + rest =~= g.subrange(i as int, g.len() as int));
                                                assert(step_taken(*ctx, Err::<bool, E>(e)));
                                                assert(run_steps_to(
                                                    g,
                                                    false,
                                                    *old(ctx),
                                                    *ctx,
                                                    Err::<bool, E>(e),
                                                ));
                                            }
                                            return Err(e);
                                        },
                                        Ok(_) => {
                                            changed = true;
                                            proof {
                                                let ghost ga = Ok::<bool, E>(ar->Ok_0);
                                                assert(ar is Ok);
                                                assert forall|cf: C, rr: Result<bool, E>|
                                                    #[trigger] step_taken(cf, rr) && run_steps_to(
                                                        g.subrange(i + 1, g.len() as int),
                                                        true,
                                                        *ctx,
                                                        cf,
                                                        rr,
                                                    ) implies run_steps_to(
                                                    g,
                                                    false,
                                                    *old(ctx),
                                                    cf,
                                                    rr,
                                                ) by {
                                                    crate::laws::lemma_matched_action_steps(
                                                        w@,
                                                        action_model(*a),
                                                        rest,
                                                        changed0,
                                                        c_head,
                                                        *ctx,
                                                        ar,
                                                        cf,
                                                        rr,
                                                    );
                                                    assert(seq![(Some(w@), Some(action_model(*a)))]
                                                        + rest =~= g.subrange(
                                                        i as int,
                                                        g.len() as int,
                                                    ));
                                                    assert(step_taken(cf, rr));
                                                };
                                            }
                                        },
                                    }
                                },
                                None => {
                                    changed = true;
                                    proof {
                                        assert(g[i as int].1 is None);
                                        assert forall|cf: C, rr: Result<bool, E>|
                                            #[trigger] step_taken(cf, rr) && run_steps_to(
                                                g.subrange(i + 1, g.len() as int),
                                                true,
                                                c_head,
                                                cf,
                                                rr,
                                            ) implies run_steps_to(g, false, *old(ctx), cf, rr) by {
                                            crate::laws::lemma_matched_condition_alone_fires(
                                                w@,
                                                rest,
                                                changed0,
                                                c_head,
                                                cf,
                                                rr,
                                            );
                                            assert(seq![(Some(w@), None::<ActionModel<W, T>>)]
                                                + rest =~= g.subrange(i as int, g.len() as int));
                                            assert(step_taken(cf, rr));
                                        };
                                    }
                                },
                            }
                        },
                        Ok(false) => {
                            proof {
                                assert forall|cf: C, rr: Result<bool, E>|
                                    #[trigger] step_taken(cf, rr) && run_steps_to(
                                        g.subrange(i + 1, g.len() as int),
                                        changed0,
                                        c_head,
                                        cf,
                                        rr,
                                    ) implies run_steps_to(g, false, *old(ctx), cf, rr) by {
                                    crate::laws::lemma_unmatched_condition_steps(
                                        w@,
                                        g[i as int].1,
                                        rest,
                                        changed0,
                                        c_head,
                                        cf,
                                        rr,
                                    );
                                    assert(seq![(Some(w@), g[i as int].1)] + rest =~= g.subrange(
                                        i as int,
                                        g.len() as int,
                                    ));
                                    assert(step_taken(cf, rr));
                                };
                            }
                        },
                    }
                },
            }
            i += 1;
        }
        proof {
            assert(g.subrange(g.len() as int, g.len() as int) =~= Seq::empty());
            assert(run_steps_to(
                g.subrange(i as int, g.len() as int),
                changed,
                *ctx,
                *ctx,
                Ok::<bool, E>(changed),
            ));
            assert(step_taken(*ctx, Ok::<bool, E>(changed)));
            assert(run_steps_to(g, false, *old(ctx), *ctx, Ok::<bool, E>(changed)));
        }
        Ok(changed)
    }
}

/// A populated group as a builder function returns it, given some fresh,
/// empty group to fill in.
pub open spec fn built_from<W, T, F: FnOnce(Case<W, T>) -> Case<W, T>>(
    f: F,
    sub: Case<W, T>,
) -> bool {
    exists|base: Case<W, T>| base@.len() == 0 && #[trigger] call_ensures(f, (base,), sub)
}

impl<W, T> Action<W, T> {
    pub(crate) fn exec<C, E>(&self, ctx: &mut C) -> (r: Result<bool, E>) where
        W: Fn(&C) -> Result<bool, E>,
        T: Fn(&C) -> Result<C, E>,

        requires
            action_callable::<C, E, W, T>(action_model(*self)),
        ensures
            action_steps_to(action_model(*self), *old(ctx), *final(ctx), r),
        decreases *self,
    {
        match self {
            Action::Leaf(t) => {
                proof {
                    assert(action_model(*self) == ActionModel::Leaf::<W, T>(t@));
                }
                t.exec(ctx)
            },
            Action::Nested(c) => {
                proof {
                    assert(action_model(*self) == ActionModel::Group::<W, T>(c@));
                    assert(decreases_to!(*self => *c));
                }
                c.exec(ctx)
            },
        }
    }
}

} // verus!
