use vstd::prelude::*;

verus! {

/// Holds exactly when the condition callback `f`, shown a context worth `c`,
/// can answer `r`.
pub open spec fn checks_to<C, E, W: Fn(&C) -> Result<bool, E>>(
    f: W,
    c: C,
    r: Result<bool, E>,
) -> bool {
    exists|a: &C| *a == c && call_ensures(f, (a,), r)
}

/// A condition callback that may be shown a context in any state.
pub open spec fn when_callable<C, E, W: Fn(&C) -> Result<bool, E>>(f: W) -> bool {
    forall|a: &C| call_requires(f, (a,))
}

/// A named condition: a predicate over the context, consulted to decide
/// whether the paired action should run. The name is descriptive only; no
/// behaviour depends on it, so the view of a condition is just its callback.
pub struct When<W> {
    #[allow(dead_code)]
    name: String,
    f: W,
}

impl<W> View for When<W> {
    type V = W;

    closed spec fn view(&self) -> W {
        self.f
    }
}

impl<W> When<W> {
    pub fn new<S: Into<String>>(name: S, f: W) -> (r: Self)
        ensures
            r@ == f,
    {
        Self { name: name.into(), f }
    }

    /// Ask the stored predicate about the current context and hand its answer
    /// back unchanged.
    pub fn check<C, E>(&self, ctx: &C) -> (r: Result<bool, E>) where
        W: Fn(&C) -> Result<bool, E>,

        requires
            when_callable::<C, E, W>(self@),
        ensures
            checks_to(self@, *ctx, r),
    {
        (self.f)(ctx)
    }
}

} // verus!
