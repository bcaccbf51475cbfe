//! What holds of every change on an X server.
use vstd::prelude::*;

use crate::decimal;
use crate::float;
use crate::float::{Double, Single};
use crate::kde;
use crate::models;
use crate::models::{DisplayMode, OutputView, Side};
use crate::text_spec as spec;
use crate::x11::{
    adopted, all_adopted, all_colored, beside_args, channel_gamma, color_args, enabled_args,
    mirror_args, mode_args, position_args, scale_args, side_flag, state_of, transform_args,
    X11ColorState, TEN_DOUBLE,
};

verus! {

/// The flag for a side is the word for it after two hyphens.
pub proof fn flags_name_the_side(side: Side)
    ensures
        side_flag(side) == "--"@ + kde::side_word(side),
{
    reveal_strlit("--");
    reveal_strlit("left-of");
    reveal_strlit("right-of");
    reveal_strlit("above");
    reveal_strlit("below");
    reveal_strlit("--left-of");
    reveal_strlit("--right-of");
    reveal_strlit("--above");
    reveal_strlit("--below");
    assert("--left-of"@ =~= "--"@ + "left-of"@);
    assert("--right-of"@ =~= "--"@ + "right-of"@);
    assert("--above"@ =~= "--"@ + "above"@);
    assert("--below"@ =~= "--"@ + "below"@);
}

/// A mode is set on the output by its size, and by its rate with three places where that is
/// positive.
pub proof fn modes_are_set_by_size_and_rate(output: Seq<char>, mode: DisplayMode)
    ensures
        ({
            let a = mode_args(output, mode);
            let rated = mode.refresh_hz matches Some(hz) && float::less(
                float::single(float::ZERO),
                hz,
            );
            &&& a[0] == "--output"@ && a[1] == output
            &&& a[2] == "--mode"@ && a[3] == models::size_text(mode.width, mode.height)
            &&& !rated ==> a.len() == 4
            &&& rated ==> a.len() == 6 && a[4] == "--rate"@ && a[5] == float::fixed(
                mode.refresh_hz->Some_0,
                3,
            )
        }),
{
}

/// The gamma of a channel is from a tenth to ten, where it is a number.
pub proof fn channel_gamma_is_in_range(gamma: Single, share: Double)
    ensures
        ({
            let g = channel_gamma(gamma, share);
            &&& !float::less_double(g, float::double(float::TENTH_DOUBLE))
            &&& !float::less_double(float::double(TEN_DOUBLE), g)
        }),
{
}

/// An output that is taken up starts with the brightness and the gamma that it reports, within
/// their ranges, and one where it reports none; and with the neutral temperature.
pub proof fn new_outputs_start_as_reported(o: OutputView, states: Map<Seq<char>, X11ColorState>)
    requires
        o.enabled,
        !states.dom().contains(o.name),
    ensures
        ({
            let s = adopted(states, o)[o.name];
            &&& adopted(states, o).dom().contains(o.name)
            &&& o.color.brightness matches Some(b) ==> s.brightness == float::clamped(b)
            &&& o.color.brightness is None ==> s.brightness == float::clamped(
                float::single(float::ONE),
            )
            &&& o.color.gamma matches Some(g) ==> s.gamma == float::at_least(
                g,
                float::single(float::TENTH),
            )
            &&& o.color.gamma is None ==> s.gamma == float::at_least(
                float::single(float::ONE),
                float::single(float::TENTH),
            )
            &&& s.temperature == 6500
        }),
{
}

/// An output whose settings are kept shows them, whatever it reports; and a disabled output whose
/// settings are not kept shows what it reports.
pub proof fn kept_settings_are_shown(
    states: Map<Seq<char>, X11ColorState>,
    outputs: Seq<OutputView>,
    k: int,
)
    requires
        0 <= k < outputs.len(),
    ensures
        all_colored(states, outputs).len() == outputs.len(),
        ({
            let p = all_colored(states, outputs)[k];
            let o = outputs[k];
            &&& states.dom().contains(o.name) ==> p.color.brightness == Some(
                states[o.name].brightness,
            ) && p.color.gamma == Some(states[o.name].gamma) && p.color.temperature == Some(
                states[o.name].temperature,
            )
            &&& !states.dom().contains(o.name) && (forall|i: int|
                0 <= i <= k && (#[trigger] outputs[i]).enabled ==> outputs[i].name != o.name)
                ==> p.color == o.color
            &&& p.name == o.name && p.id == o.id && p.enabled == o.enabled
            &&& p.current_mode == o.current_mode && p.available_modes == o.available_modes
            &&& p.color_caps == o.color_caps && p.primary == o.primary
        }),
{
    let upto = outputs.take(k + 1);
    lemma_kept(states, upto, outputs[k].name);
    assert forall|i: int| 0 <= i < upto.len() && (#[trigger] upto[i]).enabled && (forall|l: int|
        0 <= l <= k && (#[trigger] outputs[l]).enabled ==> outputs[l].name != outputs[k].name) implies upto[i].name
        != outputs[k].name by {
        assert(upto[i] == outputs[i]);
    }
}

proof fn lemma_kept(
    states: Map<Seq<char>, X11ColorState>,
    outputs: Seq<OutputView>,
    name: Seq<char>,
)
    ensures
        states.dom().contains(name) ==> all_adopted(states, outputs).dom().contains(name)
            && all_adopted(states, outputs)[name] == states[name],
        !states.dom().contains(name) && (forall|i: int|
            0 <= i < outputs.len() && (#[trigger] outputs[i]).enabled ==> outputs[i].name != name)
            ==> !all_adopted(states, outputs).dom().contains(name),
    decreases outputs.len(),
{
    if outputs.len() > 0 {
        let t = outputs.drop_last();
        lemma_kept(states, t, name);
        assert(outputs.last() == outputs[outputs.len() - 1]);
        if forall|i: int| 0 <= i < outputs.len() && (#[trigger] outputs[i]).enabled ==> outputs[i].name
            != name {
            assert forall|i: int| 0 <= i < t.len() && (#[trigger] t[i]).enabled implies t[i].name != name by {
                assert(t[i] == outputs[i]);
            }
        }
    }
}

/// An output that was never changed has neutral settings.
pub proof fn unknown_outputs_are_neutral(states: Map<Seq<char>, X11ColorState>, output: Seq<char>)
    requires
        !states.dom().contains(output),
    ensures
        state_of(states, output).brightness.bits == float::ONE,
        state_of(states, output).gamma.bits == float::ONE,
        state_of(states, output).temperature == 6500,
{
}

pub(crate) proof fn lemma_signed(n: i32, c: char)
    requires
        !spec::is_digit(c),
        c != '-',
    ensures
        !decimal::signed(n as int).contains(c),
        decimal::i32_value(decimal::signed(n as int)) == Some(n),
{
    decimal::i32_read_after_write(n);
    let m: nat = if n < 0 {
        (-n) as nat
    } else {
        n as nat
    };
    let d = decimal::decimal(m);
    decimal::lemma_decimal(m);
    let s = decimal::signed(n as int);
    assert forall|i: int| 0 <= i < s.len() implies s[i] != c by {
        if n < 0 {
            if i > 0 {
                assert(s[i] == d[i - 1]);
                assert(spec::is_digit(d[i - 1]));
            }
        } else {
            assert(spec::is_digit(d[i]));
        }
    }
}

/// Every change is made to the output that it is asked for.
pub proof fn changes_are_made_to_the_output(
    output: Seq<char>,
    x: i32,
    y: i32,
    side: Side,
    other: Seq<char>,
    scale: Double,
    enabled: bool,
    state: X11ColorState,
)
    ensures
        scale_args(output, scale)[0] == "--output"@ && scale_args(output, scale)[1] == output,
        enabled_args(output, enabled)[0] == "--output"@ && enabled_args(output, enabled)[1] == output,
        position_args(output, x, y)[0] == "--output"@ && position_args(output, x, y)[1] == output,
        beside_args(output, side, other)[0] == "--output"@ && beside_args(output, side, other)[1] == output,
        transform_args(output, other)[0] == "--output"@ && transform_args(output, other)[1] == output,
        mirror_args(output, other)[0] == "--output"@ && mirror_args(output, other)[1] == output,
        color_args(output, state, scale, scale, scale)[0] == "--output"@ && color_args(
            output,
            state,
            scale,
            scale,
            scale,
        )[1] == output,
{
}

/// The place of an output can be read from the argument for it, first the column and then the row.
pub proof fn positions_can_be_read(output: Seq<char>, x: i32, y: i32)
    ensures
        ({
            let a = position_args(output, x, y);
            &&& a.len() == 4 && a[2] == "--pos"@
            &&& spec::split_once(a[3], "x"@) matches Some(t) && decimal::i32_value(t.0) == Some(x)
                && decimal::i32_value(t.1) == Some(y)
        }),
{
    reveal_strlit("x");
    assert("x"@ =~= seq!['x']);
    lemma_signed(x, 'x');
    lemma_signed(y, 'x');
    spec::lemma_split_at(decimal::signed(x as int), 'x', decimal::signed(y as int));
}

/// An output is switched on and off by different words; it is turned by the transform and moved
/// beside or made to show the output that are asked for.
pub proof fn changes_are_as_asked(output: Seq<char>, side: Side, other: Seq<char>)
    ensures
        enabled_args(output, true) == seq!["--output"@, output, "--auto"@],
        enabled_args(output, false) == seq!["--output"@, output, "--off"@],
        transform_args(output, other).skip(2) == seq!["--rotate"@, other],
        mirror_args(output, other).skip(2) == seq!["--same-as"@, other],
        beside_args(output, side, other).skip(2) == seq!["--"@ + kde::side_word(side), other],
{
    flags_name_the_side(side);
}

/// A scale is the same in both directions.
pub proof fn scales_are_the_same_in_both_directions(output: Seq<char>, scale: Double)
    ensures
        scale_args(output, scale).len() == 4,
        scale_args(output, scale)[2] == "--scale"@,
        ({
            let n = crate::shortest::double_notation(scale);
            let a = scale_args(output, scale)[3];
            a.take(n.len() as int) == n && a.skip(n.len() as int + 1) == n && a[n.len() as int] == 'x'
        }),
{
    reveal_strlit("x");
    let n = crate::shortest::double_notation(scale);
    let a = scale_args(output, scale)[3];
    assert(a.take(n.len() as int) =~= n);
    assert(a.skip(n.len() as int + 1) =~= n);
}

/// The gamma of each color goes by its own share, in the order of red, green and blue, and is not
/// changed by the shares of the others.
pub proof fn colors_have_their_own_gamma(
    output: Seq<char>,
    state: X11ColorState,
    red: Double,
    green: Double,
    blue: Double,
)
    ensures
        ({
            let a = color_args(output, state, red, green, blue);
            let r = float::fixed_double(channel_gamma(state.gamma, red), 4);
            let g = float::fixed_double(channel_gamma(state.gamma, green), 4);
            let b = float::fixed_double(channel_gamma(state.gamma, blue), 4);
            &&& a.len() == 6 && a[2] == "--brightness"@ && a[4] == "--gamma"@
            &&& a[3] == crate::shortest::single_notation(float::clamped(state.brightness))
            &&& a[5] == r + seq![':'] + g + seq![':'] + b
        }),
{
    reveal_strlit(":");
    assert(":"@ =~= seq![':']);
}


} // verus!
