//! What holds of every request.
use vstd::prelude::*;

use crate::apply::{
    canonical, changes, folded, mirror_steps, plan, position, position_steps, requested_mode,
    resolution, transform_steps, Fault, Request, StepView,
};
use crate::decimal;
use crate::float;
use crate::text_spec as spec;
use crate::transforms;

verus! {

/// The turn of a step: on or off, mode, scale, brightness, gamma, temperature, position,
/// transform, mirror. A failure comes last.
pub open spec fn turn(s: StepView) -> int {
    match s {
        StepView::Enabled(_) => 0,
        StepView::Mode(_) => 1,
        StepView::Scale(_) => 2,
        StepView::Brightness(_) => 3,
        StepView::Gamma(_) => 4,
        StepView::Temperature(_) => 5,
        StepView::Position(_, _) => 6,
        StepView::Transform(_) => 7,
        StepView::Mirror(_) => 8,
        StepView::Fail(_) => 9,
    }
}

/// Whether the turns of the steps rise, from `lo` on and below `hi`.
pub open spec fn in_turn(s: Seq<StepView>, lo: int, hi: int) -> bool {
    &&& forall|i: int| 0 <= i < s.len() ==> lo <= turn(#[trigger] s[i]) < hi
    &&& forall|i: int, j: int| 0 <= i < j < s.len() ==> turn(#[trigger] s[i]) < turn(#[trigger] s[j])
}

proof fn lemma_in_turn(a: Seq<StepView>, b: Seq<StepView>, lo: int, mid: int, hi: int)
    requires
        lo <= mid <= hi,
        in_turn(a, lo, mid),
        in_turn(b, mid, hi),
    ensures
        in_turn(a + b, lo, hi),
{
    let s = a + b;
    assert forall|i: int| 0 <= i < s.len() implies lo <= turn(#[trigger] s[i]) < hi by {
        if i < a.len() {
            assert(s[i] == a[i]);
        } else {
            assert(s[i] == b[i - a.len()]);
        }
    }
    assert forall|i: int, j: int| 0 <= i < j < s.len() implies turn(#[trigger] s[i]) < turn(
        #[trigger] s[j],
    ) by {
        if j < a.len() {
            assert(s[i] == a[i] && s[j] == a[j]);
        } else if i < a.len() {
            assert(s[i] == a[i] && s[j] == b[j - a.len()]);
        } else {
            assert(s[i] == b[i - a.len()] && s[j] == b[j - a.len()]);
        }
    }
}

proof fn lemma_contained(a: Seq<StepView>, b: Seq<StepView>, x: StepView)
    ensures
        (a + b).contains(x) == (a.contains(x) || b.contains(x)),
{
    let s = a + b;
    if a.contains(x) {
        let i = choose|i: int| 0 <= i < a.len() && a[i] == x;
        assert(s[i] == x);
    }
    if b.contains(x) {
        let i = choose|i: int| 0 <= i < b.len() && b[i] == x;
        assert(s[a.len() + i] == x);
    }
    if s.contains(x) {
        let i = choose|i: int| 0 <= i < s.len() && s[i] == x;
        if i < a.len() {
            assert(a[i] == x);
        } else {
            assert(b[i - a.len()] == x);
        }
    }
}

/// The steps for an option: one where there is one.
spec fn one<T>(x: Option<T>, f: spec_fn(T) -> StepView) -> Seq<StepView> {
    match x {
        Some(v) => seq![f(v)],
        None => seq![],
    }
}

proof fn lemma_one<T>(x: Option<T>, f: spec_fn(T) -> StepView, t: int, step: StepView)
    requires
        forall|v: T| turn(#[trigger] f(v)) == t,
    ensures
        in_turn(one(x, f), t, t + 1),
        one(x, f).contains(step) == (x matches Some(v) && f(v) == step),
{
    if let Some(v) = x {
        assert(one(x, f)[0] == f(v));
    }
}

proof fn lemma_changes(r: Request, mode: Option<crate::models::DisplayMode>, step: StepView)
    ensures
        ({
            let c = changes(mode, r.scale, r.brightness, r.gamma, r.temperature, r.enabled);
            &&& in_turn(c, 0, 6)
            &&& c.contains(step) == match step {
                StepView::Enabled(b) => r.enabled == Some(b),
                StepView::Mode(m) => mode == Some(m),
                StepView::Scale(x) => r.scale == Some(x),
                StepView::Brightness(x) => r.brightness == Some(x),
                StepView::Gamma(x) => r.gamma == Some(x),
                StepView::Temperature(x) => r.temperature == Some(x),
                _ => false,
            }
        }),
{
    let a = one(r.enabled, |v: bool| StepView::Enabled(v));
    let b = one(mode, |v: crate::models::DisplayMode| StepView::Mode(v));
    let c = one(r.scale, |v: float::Double| StepView::Scale(v));
    let d = one(r.brightness, |v: float::Single| StepView::Brightness(v));
    let e = one(r.gamma, |v: float::Single| StepView::Gamma(v));
    let f = one(r.temperature, |v: u16| StepView::Temperature(v));
    lemma_one(r.enabled, |v: bool| StepView::Enabled(v), 0, step);
    lemma_one(mode, |v: crate::models::DisplayMode| StepView::Mode(v), 1, step);
    lemma_one(r.scale, |v: float::Double| StepView::Scale(v), 2, step);
    lemma_one(r.brightness, |v: float::Single| StepView::Brightness(v), 3, step);
    lemma_one(r.gamma, |v: float::Single| StepView::Gamma(v), 4, step);
    lemma_one(r.temperature, |v: u16| StepView::Temperature(v), 5, step);
    lemma_in_turn(a, b, 0, 1, 2);
    lemma_in_turn(a + b, c, 0, 2, 3);
    lemma_in_turn(a + b + c, d, 0, 3, 4);
    lemma_in_turn(a + b + c + d, e, 0, 4, 5);
    lemma_in_turn(a + b + c + d + e, f, 0, 5, 6);
    lemma_contained(a, b, step);
    lemma_contained(a + b, c, step);
    lemma_contained(a + b + c, d, step);
    lemma_contained(a + b + c + d, e, step);
    lemma_contained(a + b + c + d + e, f, step);
    assert(changes(mode, r.scale, r.brightness, r.gamma, r.temperature, r.enabled) =~= a + b + c + d
        + e + f);
}

/// Whether the position of a request can be read, or there is none.
pub open spec fn position_is_fine(r: Request) -> bool {
    r.position matches Some(s) ==> position(s@) is Ok
}

/// Whether the transform of a request is known, or there is none.
pub open spec fn transform_is_fine(r: Request) -> bool {
    r.orientation matches Some(s) ==> canonical(folded(s@)) is Some
}

proof fn lemma_rest(r: Request, step: StepView)
    ensures
        in_turn(position_steps(r), 6, 10),
        position_steps(r).contains(step) == match step {
            StepView::Position(x, y) => r.position matches Some(s) && position(s@)
                == Ok::<(i32, i32), Fault>((x, y)),
            StepView::Transform(name) => position_is_fine(r) && (r.orientation matches Some(s)
                && canonical(folded(s@)) == Some(name)),
            StepView::Mirror(target) => position_is_fine(r) && transform_is_fine(r) && (
            r.mirror matches Some(s) && s@ == target),
            StepView::Fail(e) => if !position_is_fine(r) {
                position(r.position->Some_0@) == Err::<(i32, i32), Fault>(e)
            } else {
                !transform_is_fine(r) && e == Fault::UnsupportedTransform(
                    folded(r.orientation->Some_0@),
                )
            },
            _ => false,
        },
{
    let m = mirror_steps(r);
    if let Some(target) = r.mirror {
        assert(m[0] == StepView::Mirror(target@));
    }
    assert(in_turn(m, 8, 9));
    assert(m.contains(step) == (r.mirror matches Some(t) && step == StepView::Mirror(t@)));
    let t = transform_steps(r);
    if let Some(s) = r.orientation {
        match canonical(folded(s@)) {
            Some(name) => {
                let first = seq![StepView::Transform(name)];
                assert(first[0] == StepView::Transform(name));
                lemma_in_turn(first, m, 7, 8, 10);
                lemma_contained(first, m, step);
            },
            None => {
                assert(t[0] == StepView::Fail(Fault::UnsupportedTransform(folded(s@))));
            },
        }
    }
    assert(in_turn(t, 7, 10));
    if let Some(s) = r.position {
        match position(s@) {
            Ok((x, y)) => {
                let first = seq![StepView::Position(x, y)];
                assert(first[0] == StepView::Position(x, y));
                lemma_in_turn(first, t, 6, 7, 10);
                lemma_contained(first, t, step);
            },
            Err(e) => {
                assert(position_steps(r)[0] == StepView::Fail(e));
            },
        }
    }
}

/// A request whose mode can be read asks for a step exactly if it has the setting of that step,
/// with the same value: no setting is dropped, added, or taken for another one. A position, a
/// transform or a mirroring is asked for only where all that is read before it can be read.
pub proof fn every_setting_is_asked_for(r: Request, step: StepView)
    requires
        requested_mode(spec::opt(r.mode), r.refresh) is Ok,
    ensures
        plan(r).contains(step) <==> match step {
            StepView::Enabled(b) => r.enabled == Some(b),
            StepView::Mode(m) => requested_mode(spec::opt(r.mode), r.refresh)->Ok_0 == Some(m),
            StepView::Scale(x) => r.scale == Some(x),
            StepView::Brightness(x) => r.brightness == Some(x),
            StepView::Gamma(x) => r.gamma == Some(x),
            StepView::Temperature(x) => r.temperature == Some(x),
            StepView::Position(x, y) => r.position matches Some(s) && position(s@)
                == Ok::<(i32, i32), Fault>((x, y)),
            StepView::Transform(name) => position_is_fine(r) && (r.orientation matches Some(s)
                && canonical(folded(s@)) == Some(name)),
            StepView::Mirror(target) => position_is_fine(r) && transform_is_fine(r) && (
            r.mirror matches Some(s) && s@ == target),
            StepView::Fail(e) => if !position_is_fine(r) {
                position(r.position->Some_0@) == Err::<(i32, i32), Fault>(e)
            } else {
                !transform_is_fine(r) && e == Fault::UnsupportedTransform(
                    folded(r.orientation->Some_0@),
                )
            },
        },
{
    let mode = requested_mode(spec::opt(r.mode), r.refresh)->Ok_0;
    lemma_changes(r, mode, step);
    lemma_rest(r, step);
    let c = changes(mode, r.scale, r.brightness, r.gamma, r.temperature, r.enabled);
    lemma_contained(c, position_steps(r), step);
}

/// The steps of a request come in their turns, each at most once.
pub proof fn steps_come_in_turn(r: Request, i: int, j: int)
    requires
        0 <= i < j < plan(r).len(),
    ensures
        turn(plan(r)[i]) < turn(plan(r)[j]),
{
    if let Ok(mode) = requested_mode(spec::opt(r.mode), r.refresh) {
        lemma_changes(r, mode, plan(r)[i]);
        lemma_rest(r, plan(r)[i]);
        let c = changes(mode, r.scale, r.brightness, r.gamma, r.temperature, r.enabled);
        lemma_in_turn(c, position_steps(r), 0, 6, 10);
    }
}

/// A request that asks for one thing alone has a plan of that one step.
pub proof fn one_setting_is_one_step(r: Request, step: StepView)
    requires
        requested_mode(spec::opt(r.mode), r.refresh) is Ok,
        plan(r).contains(step),
        forall|other: StepView| #[trigger] plan(r).contains(other) ==> other == step,
    ensures
        plan(r) == seq![step],
{
    let p = plan(r);
    assert(p.contains(p[0]));
    if p.len() > 1 {
        assert(p.contains(p[1]));
        steps_come_in_turn(r, 0, 1);
    }
    assert(p =~= seq![step]);
}

/// A request without any setting has no steps.
pub proof fn nothing_is_done_unasked(r: Request)
    requires
        r.mode is None && r.scale is None && r.brightness is None && r.gamma is None,
        r.temperature is None && r.enabled is None,
        r.position is None && r.orientation is None && r.mirror is None,
    ensures
        plan(r).len() == 0,
{
    if plan(r).len() > 0 {
        assert(plan(r).contains(plan(r)[0]));
        every_setting_is_asked_for(r, plan(r)[0]);
    }
}

/// A request for a mode asks for its size, and for the rate that goes with it; a rate alone asks
/// for nothing.
pub proof fn modes_are_asked_for(width: u32, height: u32, refresh: Option<u32>)
    ensures
        requested_mode(
            Some(decimal::decimal(width as nat) + "x"@ + decimal::decimal(height as nat)),
            refresh,
        ) matches Ok(Some(m)) && m.width == width && m.height == height && (m.refresh_hz is Some
            <==> refresh is Some) && (refresh matches Some(hz) ==> m.refresh_hz == Some(
            float::of_whole(hz as nat),
        )),
        requested_mode(None, refresh) matches Ok(m) && m is None,
{
    crate::apply::resolution_is_read_back(width, height);
}

/// A size that lacks its `x`, or whose parts are no numbers, is refused, and the part that cannot
/// be read is named.
pub proof fn unreadable_sizes_are_refused(a: Seq<char>, b: Seq<char>, c: Seq<char>)
    requires
        !a.contains('x'),
        !b.contains('x'),
    ensures
        decimal::u32_value(a) is None ==> resolution(a + "x"@ + b) == Err::<(u32, u32), Fault>(
            Fault::NotASize(a),
        ) && resolution(a) == Err::<(u32, u32), Fault>(Fault::NotASize(a)),
        decimal::u32_value(a) is Some ==> resolution(a) == Err::<(u32, u32), Fault>(
            Fault::InvalidMode,
        ),
        decimal::u32_value(a) is Some && decimal::u32_value(b) is None ==> resolution(a + "x"@ + b)
            == Err::<(u32, u32), Fault>(Fault::NotASize(b)),
        resolution(a + "x"@ + b) == resolution(a + "x"@ + (b + "x"@ + c)),
{
    reveal_strlit("x");
    assert("x"@ =~= seq!['x']);
    spec::lemma_split_at(a, 'x', b);
    spec::lemma_split_at(a, 'x', b + "x"@ + c);
    spec::lemma_split_at(b, 'x', c);
    spec::lemma_no_split(a, 'x');
    spec::lemma_no_split(b, 'x');
}

/// A position without a separator is refused; and a part of it that is no number is named, the
/// first one first.
pub proof fn unreadable_positions_are_refused(a: Seq<char>, b: Seq<char>)
    requires
        spec::is_word(a) && !a.contains(','),
        spec::is_word(b),
    ensures
        !a.contains('x') ==> position(a) == Err::<(i32, i32), Fault>(Fault::InvalidPosition),
        decimal::i32_value(a) is None ==> position(a + ","@ + b) == Err::<(i32, i32), Fault>(
            Fault::NotACoordinate(a),
        ),
        decimal::i32_value(a) is Some && decimal::i32_value(b) is None ==> position(a + ","@ + b)
            == Err::<(i32, i32), Fault>(Fault::NotACoordinate(b)),
{
    reveal_strlit("x");
    reveal_strlit(",");
    assert("x"@ =~= seq!['x']);
    assert(","@ =~= seq![',']);
    let s = a + ","@ + b;
    assert(s[0] == a[0] && s.last() == b.last());
    spec::lemma_trim_solid(s);
    spec::lemma_trim_solid(a);
    spec::lemma_trim_solid(b);
    spec::lemma_split_at(a, ',', b);
    spec::lemma_no_split(a, ',');
    if !a.contains('x') {
        spec::lemma_no_split(a, 'x');
    }
}

/// The other word for a transform that a request may use.
pub open spec fn other_word(n: u32) -> Seq<char> {
    if n == 1 {
        "left"@
    } else if n == 2 {
        "inverted"@
    } else if n == 3 {
        "right"@
    } else if n == 4 {
        "flip"@
    } else if n == 5 {
        "flip-90"@
    } else if n == 6 {
        "flip-180"@
    } else if n == 7 {
        "flip-270"@
    } else {
        "0"@
    }
}

/// A transform is understood exactly by its name and by its other word, whichever of the eight it
/// is, and no two share a word.
pub proof fn transforms_are_understood(s: Seq<char>, n: u32)
    requires
        n < 8,
    ensures
        canonical(s) == Some(transforms::numbered(n)) <==> s == transforms::numbered(n) || s
            == other_word(n),
        canonical(s) is Some ==> exists|m: u32|
            m < 8 && canonical(s) == Some(#[trigger] transforms::numbered(m)),
{
    transforms::names_differ();
    transforms::lemma_other_names();
    lemma_other_words();
    assert(transforms::numbered(0) == "normal"@);
    assert(transforms::numbered(1) == "90"@);
    assert(transforms::numbered(2) == "180"@);
    assert(transforms::numbered(3) == "270"@);
    assert(transforms::numbered(4) == "flipped"@);
    assert(transforms::numbered(5) == "flipped-90"@);
    assert(transforms::numbered(6) == "flipped-180"@);
    assert(transforms::numbered(7) == "flipped-270"@);
    assert(other_word(0) == "0"@);
    assert(other_word(1) == "left"@);
    assert(other_word(2) == "inverted"@);
    assert(other_word(3) == "right"@);
    assert(other_word(4) == "flip"@);
    assert(other_word(5) == "flip-90"@);
    assert(other_word(6) == "flip-180"@);
    assert(other_word(7) == "flip-270"@);
}

proof fn lemma_other_words()
    ensures
        forall|m: u32, n: u32|
            m < 8 && n < 8 && #[trigger] other_word(m) == #[trigger] other_word(n) ==> m == n,
{
    reveal_strlit("0");
    reveal_strlit("left");
    reveal_strlit("inverted");
    reveal_strlit("right");
    reveal_strlit("flip");
    reveal_strlit("flip-90");
    reveal_strlit("flip-180");
    reveal_strlit("flip-270");
    assert("0"@.len() == 1 && "left"@.len() == 4 && "inverted"@.len() == 8 && "right"@.len() == 5);
    assert("flip"@.len() == 4 && "flip-90"@.len() == 7);
    assert("flip-180"@.len() == 8 && "flip-270"@.len() == 8);
    assert("left"@[0] == 'l' && "flip"@[0] == 'f' && "inverted"@[0] == 'i');
    assert("flip-180"@[0] == 'f' && "flip-180"@[5] == '1' && "flip-270"@[0] == 'f');
    assert("flip-270"@[5] == '2');
}

/// White space round a transform, the case of its letters and degree signs do not count.
pub proof fn transforms_are_folded(a: Seq<char>, s: Seq<char>, b: Seq<char>)
    requires
        spec::all_space(a),
        spec::all_space(b),
        spec::is_solid(s),
    ensures
        folded(a + s + b) == folded(s),
        folded(spec::lower(s)) == folded(s),
        s.len() > 0 ==> folded(s.push('\u{b0}')) == folded(s),
{
    spec::trimming_takes_off_white_space(a, s, b);
    spec::lemma_trim_solid(s);
    let low = spec::lower(s);
    if s.len() > 0 {
        spec::small_letters_stay(s, 0);
        assert(low[0] == spec::lower_char(s[0]));
        assert(low.last() == spec::lower_char(s.last()));
        let t = s.push('\u{b0}');
        spec::lemma_trim_solid(t);
        assert(spec::lower(t) =~= low + seq!['\u{b0}']);
        spec::leaving_out_keeps_the_others(low, seq!['\u{b0}'], '\u{b0}');
        assert(spec::without(low, '\u{b0}') + Seq::<char>::empty() =~= spec::without(low, '\u{b0}'));
    } else {
        assert(low =~= s);
    }
    spec::lemma_trim_solid(low);
}

} // verus!
