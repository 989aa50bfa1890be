use tweak::Case;

struct Ctx {
    x: i32,
}

impl Ctx {
    fn new(x: i32) -> Self {
        Ctx { x }
    }
}

type WhenFn = fn(&Ctx) -> Result<bool, &'static str>;
type ThenFn = fn(&Ctx) -> Result<Ctx, &'static str>;

#[test]
fn cascade_when_error() {
    let mut c = Ctx::new(0);
    let res = Case::<WhenFn, ThenFn>::new("errored case")
        .when("check", |_| Err("when error"))
        .then("action", |_| Err("when error"))
        .run(&mut c);

    assert_eq!(res, Err("when error"));
    assert_eq!(c.x, 0);
}

#[test]
fn cascade_then_error() {
    let mut c = Ctx::new(0);
    let res = Case::<WhenFn, ThenFn>::new("errored case")
        .when("check", |_| Ok(true))
        .then("check", |_| Err("then error"))
        .run(&mut c);

    assert_eq!(res, Err("then error"));
    assert_eq!(c.x, 0);
}

#[test]
fn context_mutation() {
    let mut c = Ctx::new(5);
    let res = Case::<WhenFn, ThenFn>::new("errored case")
        .when("is 3", |ctx: &Ctx| Ok(ctx.x == 3))
        .then("multiply by 3", |ctx: &Ctx| Ok(Ctx::new(ctx.x * 3)))
        .when("is 5", |ctx: &Ctx| Ok(ctx.x == 5))
        .then("multiply by 5", |ctx: &Ctx| Ok(Ctx::new(ctx.x * 5)))
        .run(&mut c);

    assert_eq!(res, Ok(true));
    assert_eq!(c.x, 25);
}

#[test]
fn nested_cases() {
    let mut c = Ctx::new(5);
    let res = Case::<WhenFn, ThenFn>::new("errored case")
        .when("is 3", |ctx: &Ctx| Ok(ctx.x == 3))
        .then_case("nested 3", |sub| {
            sub.when("check", |_| Ok(true)).then("action", |_| Ok(Ctx::new(33)))
        })
        .when("is 5", |ctx: &Ctx| Ok(ctx.x == 5))
        .then_case("nested 5", |sub| {
            sub.when("check", |_| Ok(true)).then("action", |_| Ok(Ctx::new(55)))
        })
        .run(&mut c);

    assert_eq!(res, Ok(true));
    assert_eq!(c.x, 55);
}

#[test]
fn when_nothing_is_changed() {
    let mut c = Ctx::new(1);
    let res = Case::<WhenFn, ThenFn>::new("errored case")
        .when("is 3", |ctx: &Ctx| Ok(ctx.x == 3))
        .then("multiply by 3", |ctx: &Ctx| Ok(Ctx::new(ctx.x * 3)))
        .when("is 5", |ctx: &Ctx| Ok(ctx.x == 5))
        .then("multiply by 5", |ctx: &Ctx| Ok(Ctx::new(ctx.x * 5)))
        .run(&mut c);

    assert_eq!(res, Ok(false));
    assert_eq!(c.x, 1);
}

#[test]
fn conditions_see_earlier_mutations() {
    let mut c = Ctx::new(3);
    let res = Case::<WhenFn, ThenFn>::new("ordered")
        .when("is 3", |ctx: &Ctx| Ok(ctx.x == 3))
        .then("multiply by 3", |ctx: &Ctx| Ok(Ctx::new(ctx.x * 3)))
        .when("is 9", |ctx: &Ctx| Ok(ctx.x == 9))
        .then("add one", |ctx: &Ctx| Ok(Ctx::new(ctx.x + 1)))
        .run(&mut c);

    assert_eq!(res, Ok(true));
    assert_eq!(c.x, 10);
}

#[test]
fn condition_without_action_counts_as_fired() {
    let mut c = Ctx::new(7);
    let res = Case::<WhenFn, ThenFn>::new("bare condition")
        .when("positive", |ctx: &Ctx| Ok(ctx.x > 0))
        .run(&mut c);

    assert_eq!(res, Ok(true));
    assert_eq!(c.x, 7);
}

#[test]
fn second_action_replaces_first() {
    let mut c = Ctx::new(0);
    let res = Case::<WhenFn, ThenFn>::new("last wins")
        .when("always", |_| Ok(true))
        .then("set to one", |_| Ok(Ctx::new(1)))
        .then("set to two", |_| Ok(Ctx::new(2)))
        .run(&mut c);

    assert_eq!(res, Ok(true));
    assert_eq!(c.x, 2);
}

#[test]
fn action_before_any_condition_is_dropped() {
    let mut c = Ctx::new(4);
    let res = Case::<WhenFn, ThenFn>::new("orphan action")
        .then("orphan", |_| Ok(Ctx::new(99)))
        .run(&mut c);

    assert_eq!(res, Ok(false));
    assert_eq!(c.x, 4);
}

#[test]
fn empty_group_reports_nothing_fired() {
    let mut c = Ctx::new(2);
    let res = Case::<WhenFn, ThenFn>::new("empty").run(&mut c);

    assert_eq!(res, Ok(false));
    assert_eq!(c.x, 2);
}

#[test]
fn nested_error_stops_outer_walk() {
    let mut c = Ctx::new(5);
    let res = Case::<WhenFn, ThenFn>::new("outer")
        .when("is 5", |ctx: &Ctx| Ok(ctx.x == 5))
        .then_case("failing inner", |sub| {
            sub.when("boom", |_| Err("inner error")).then("never", |_| Ok(Ctx::new(0)))
        })
        .when("is 5 still", |ctx: &Ctx| Ok(ctx.x == 5))
        .then("would run", |_| Ok(Ctx::new(77)))
        .run(&mut c);

    assert_eq!(res, Err("inner error"));
    assert_eq!(c.x, 5);
}

#[test]
fn nested_no_match_still_counts_as_fired() {
    let mut c = Ctx::new(5);
    let res = Case::<WhenFn, ThenFn>::new("outer")
        .when("is 5", |ctx: &Ctx| Ok(ctx.x == 5))
        .then_case("inner without match", |sub| {
            sub.when("is 8", |ctx: &Ctx| Ok(ctx.x == 8)).then("never", |_| Ok(Ctx::new(0)))
        })
        .run(&mut c);

    assert_eq!(res, Ok(true));
    assert_eq!(c.x, 5);
}

struct XY {
    x: i32,
    y: i32,
}

impl XY {
    fn new(x: i32, y: i32) -> Self {
        Self { x, y }
    }
}

type XYWhen = fn(&XY) -> Result<bool, &'static str>;
type XYThen = fn(&XY) -> Result<XY, &'static str>;

#[test]
fn nested_groups_interleave_on_two_fields() {
    let mut xy = XY::new(5, 0);
    let res = Case::<XYWhen, XYThen>::new("coords")
        .when("x > 0", |ctx: &XY| Ok(ctx.x > 0))
        .then_case("tweak x", |case| {
            case.when("x == 5", |ctx: &XY| Ok(ctx.x == 5))
                .then("multiply x by 3", |ctx: &XY| Ok(XY::new(ctx.x * 3, ctx.y)))
                .when("when x > 10", |ctx: &XY| Ok(ctx.x > 10))
                .then("set x to 10", |ctx: &XY| Ok(XY::new(10, ctx.y)))
        })
        .when("y > 0", |ctx: &XY| Ok(ctx.y > 0))
        .then_case("tweak y", |case| {
            case.when("y > 0", |ctx: &XY| Ok(ctx.y > 0))
                .then("divide 10 by y", |ctx: &XY| Ok(XY::new(ctx.x, 10 / ctx.y)))
        })
        .run(&mut xy);

    assert_eq!(Ok(true), res);
    assert_eq!(xy.x, 10);
    assert_eq!(xy.y, 0);
}
