use vstd::prelude::*;

verus! {

/// Holds exactly when the action callback `f`, shown a context worth `c`,
/// can answer `r` (a replacement context, or an error).
pub open spec fn runs_to<C, E, T: Fn(&C) -> Result<C, E>>(
    f: T,
    c: C,
    r: Result<C, E>,
) -> bool {
    exists|a: &C| *a == c && call_ensures(f, (a,), r)
}

/// An action callback that may be shown a context in any state.
pub open spec fn then_callable<C, E, T: Fn(&C) -> Result<C, E>>(f: T) -> bool {
    forall|a: &C| call_requires(f, (a,))
}

/// What executing a leaf action reports, given what its callback returned: a
/// successful callback means "this action ran", an error is passed through.
pub open spec fn exec_outcome<C, E>(tr: Result<C, E>) -> Result<bool, E> {
    match tr {
        Ok(_) => Ok(true),
        Err(e) => Err(e),
    }
}

/// The context left behind by a leaf action that was given a context worth
/// `c0`: the replacement it produced, or `c0` untouched when it failed.
pub open spec fn exec_context<C, E>(c0: C, tr: Result<C, E>) -> C {
    match tr {
        Ok(c) => c,
        Err(_) => c0,
    }
}

/// A named leaf action: a mutation of the context, run when the paired
/// condition matches; its callback maps the current context to a replacement.
/// The name is descriptive only; no behaviour depends on it, so the view of a
/// leaf action is just its callback.
pub struct Then<T> {
    #[allow(dead_code)]
    name: String,
    f: T,
}

impl<T> View for Then<T> {
    type V = T;

    closed spec fn view(&self) -> T {
        self.f
    }
}

impl<T> Then<T> {
    pub fn new<S: Into<String>>(name: S, f: T) -> (r: Self)
        ensures
            r@ == f,
    {
        Self { name: name.into(), f }
    }

    /// Run the stored operation on the context, installing the replacement it
    /// produces; report `Ok(true)` ("the action ran") on success and the
    /// operation's own error, with the context untouched, otherwise.
    pub(crate) fn exec<C, E>(&self, ctx: &mut C) -> (r: Result<bool, E>) where
        T: Fn(&C) -> Result<C, E>,

        requires
            then_callable::<C, E, T>(self@),
        ensures
            exists|tr: Result<C, E>|
                #[trigger] runs_to(self@, *old(ctx), tr) && r == exec_outcome::<C, E>(tr)
                    && *final(ctx) == exec_context(*old(ctx), tr),
    {
        let res = (self.f)(ctx);
        let ghost tr: Result<C, E> = res;
        match res {
            Ok(c) => {
                *ctx = c;
                proof {
                    assert(runs_to(self@, *old(ctx), tr));
                    assert(*ctx == exec_context(*old(ctx), tr));
                }
                Ok(true)
            },
            Err(e) => {
                proof {
                    assert(runs_to(self@, *old(ctx), tr));
                }
                Err(e)
            },
        }
    }
}

} // verus!
