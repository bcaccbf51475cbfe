//! The X11 backend: the color settings that it keeps, and the calls of `xrandr` that it makes.
use vstd::prelude::*;

use crate::by_name::ByName;
use crate::command;
use crate::decimal;
use crate::errors::BackendError;
use crate::float;
use crate::float::{Double, Single};
use crate::kelvin::{MAX_KELVIN, MIN_KELVIN, NEUTRAL_KELVIN};
use crate::models;
use crate::models::{DisplayColorSettings, DisplayMode, DisplayOutput, OutputView, Side};
use crate::program;
use crate::program::Outcome;
use crate::shortest::{double_notation, single_notation};
use crate::text;
use crate::text_spec as spec;

pub mod laws;

verus! {

/// The color settings of one output. `xrandr` reports none of them faithfully once they have
/// been combined, so they are kept here.
#[derive(Clone, Copy, Debug)]
pub struct X11ColorState {
    pub brightness: Single,
    pub gamma: Single,
    pub temperature: u16,
}

/// Control of the outputs of an X server through `xrandr`.
pub struct X11Backend {
    states: ByName<X11ColorState>,
}

pub open spec fn neutral_state() -> X11ColorState {
    X11ColorState {
        brightness: float::single(float::ONE),
        gamma: float::single(float::ONE),
        temperature: NEUTRAL_KELVIN,
    }
}

/// The settings of an output: the ones that are kept, else neutral ones.
pub open spec fn state_of(states: Map<Seq<char>, X11ColorState>, output: Seq<char>) -> X11ColorState {
    if states.dom().contains(output) {
        states[output]
    } else {
        neutral_state()
    }
}

pub open spec fn kelvin_in_range(value: u16) -> u16 {
    if value < MIN_KELVIN {
        MIN_KELVIN
    } else if value > MAX_KELVIN {
        MAX_KELVIN
    } else {
        value
    }
}

pub open spec fn or_one(x: Option<Single>) -> Single {
    match x {
        Some(v) => v,
        None => float::single(float::ONE),
    }
}

/// The settings with which an enabled output is taken up that was not seen before.
pub open spec fn first_state(color: DisplayColorSettings) -> X11ColorState {
    X11ColorState {
        brightness: float::clamped(or_one(color.brightness)),
        gamma: float::at_least(or_one(color.gamma), float::single(float::TENTH)),
        temperature: NEUTRAL_KELVIN,
    }
}

/// What is kept once an output has been seen.
pub open spec fn adopted(
    states: Map<Seq<char>, X11ColorState>,
    o: OutputView,
) -> Map<Seq<char>, X11ColorState> {
    if o.enabled && !states.dom().contains(o.name) {
        states.insert(o.name, first_state(o.color))
    } else {
        states
    }
}

/// What is kept once the outputs have been seen, in their order.
pub open spec fn all_adopted(
    states: Map<Seq<char>, X11ColorState>,
    outputs: Seq<OutputView>,
) -> Map<Seq<char>, X11ColorState>
    decreases outputs.len(),
{
    if outputs.len() == 0 {
        states
    } else {
        adopted(all_adopted(states, outputs.drop_last()), outputs.last())
    }
}

/// The output with the settings that are kept for it.
pub open spec fn colored(states: Map<Seq<char>, X11ColorState>, o: OutputView) -> OutputView {
    if states.dom().contains(o.name) {
        let s = states[o.name];
        OutputView {
            color: DisplayColorSettings {
                brightness: Some(s.brightness),
                gamma: Some(s.gamma),
                temperature: Some(s.temperature),
            },
            ..o
        }
    } else {
        o
    }
}

/// The outputs, each with the settings that were kept for it when it had been seen.
pub open spec fn all_colored(
    states: Map<Seq<char>, X11ColorState>,
    outputs: Seq<OutputView>,
) -> Seq<OutputView> {
    Seq::new(
        outputs.len(),
        |i: int| colored(all_adopted(states, outputs.take(i + 1)), outputs[i]),
    )
}

impl View for X11Backend {
    type V = Map<Seq<char>, X11ColorState>;

    closed spec fn view(&self) -> Map<Seq<char>, X11ColorState> {
        self.states@
    }
}

fn neutral() -> (r: X11ColorState)
    ensures
        r == neutral_state(),
{
    X11ColorState {
        brightness: Single { bits: float::ONE },
        gamma: Single { bits: float::ONE },
        temperature: NEUTRAL_KELVIN,
    }
}

fn first_state_of(color: DisplayColorSettings) -> (r: X11ColorState)
    ensures
        r == first_state(color),
{
    let one = Single { bits: float::ONE };
    let brightness = match color.brightness {
        Some(x) => x,
        None => one,
    };
    let gamma = match color.gamma {
        Some(x) => x,
        None => one,
    };
    X11ColorState {
        brightness: brightness.clamped(),
        gamma: gamma.at_least(Single { bits: float::TENTH }),
        temperature: NEUTRAL_KELVIN,
    }
}

/// The flag that places an output on a side of another one.
pub open spec fn side_flag(side: Side) -> Seq<char> {
    match side {
        Side::Left => "--left-of"@,
        Side::Right => "--right-of"@,
        Side::Above => "--above"@,
        Side::Below => "--below"@,
    }
}

pub(crate) fn flag_of(side: Side) -> (r: &'static str)
    ensures
        r@ == side_flag(side),
{
    match side {
        Side::Left => "--left-of",
        Side::Right => "--right-of",
        Side::Above => "--above",
        Side::Below => "--below",
    }
}

/// The arguments that set a scale, which is given for both directions.
pub open spec fn scale_args(output: Seq<char>, scale: Double) -> Seq<Seq<char>> {
    seq![
        "--output"@,
        output,
        "--scale"@,
        double_notation(scale) + "x"@ + double_notation(scale),
    ]
}

/// The arguments that switch an output on or off.
pub open spec fn enabled_args(output: Seq<char>, enabled: bool) -> Seq<Seq<char>> {
    seq![
        "--output"@,
        output,
        if enabled {
            "--auto"@
        } else {
            "--off"@
        },
    ]
}

/// The arguments that move an output.
pub open spec fn position_args(output: Seq<char>, x: i32, y: i32) -> Seq<Seq<char>> {
    seq![
        "--output"@,
        output,
        "--pos"@,
        decimal::signed(x as int) + "x"@ + decimal::signed(y as int),
    ]
}

/// The arguments that move an output to a side of another one.
pub open spec fn beside_args(output: Seq<char>, side: Side, relative_to: Seq<char>) -> Seq<Seq<char>> {
    seq!["--output"@, output, side_flag(side), relative_to]
}

/// The arguments that turn an output.
pub open spec fn transform_args(output: Seq<char>, transform: Seq<char>) -> Seq<Seq<char>> {
    seq!["--output"@, output, "--rotate"@, transform]
}

/// The arguments that let an output show what another one shows.
pub open spec fn mirror_args(output: Seq<char>, target: Seq<char>) -> Seq<Seq<char>> {
    seq!["--output"@, output, "--same-as"@, target]
}

/// The arguments that set the brightness and the gamma of the three colors.
pub open spec fn color_args(
    output: Seq<char>,
    state: X11ColorState,
    red: Double,
    green: Double,
    blue: Double,
) -> Seq<Seq<char>> {
    seq![
        "--output"@,
        output,
        "--brightness"@,
        single_notation(float::clamped(state.brightness)),
        "--gamma"@,
        float::fixed_double(channel_gamma(state.gamma, red), 4) + ":"@ + float::fixed_double(
            channel_gamma(state.gamma, green),
            4,
        ) + ":"@ + float::fixed_double(channel_gamma(state.gamma, blue), 4),
    ]
}

/// The arguments that set a mode: the rate is given where it is positive, with three places.
pub open spec fn mode_args(output: Seq<char>, mode: DisplayMode) -> Seq<Seq<char>> {
    seq!["--output"@, output, "--mode"@, models::size_text(mode.width, mode.height)] + match mode.refresh_hz {
        Some(hz) => if float::less(float::single(float::ZERO), hz) {
            seq!["--rate"@, float::fixed(hz, 3)]
        } else {
            seq![]
        },
        None => seq![],
    }
}

impl X11Backend {
    /// A backend that keeps no settings yet.
    pub fn new() -> (r: Result<Self, BackendError>)
        ensures
            r matches Ok(b) && b@ == Map::<Seq<char>, X11ColorState>::empty(),
    {
        Ok(X11Backend { states: ByName::new() })
    }

    /// A backend that goes on with settings kept earlier.
    pub fn with_states(states: ByName<X11ColorState>) -> (r: Self)
        ensures
            r@ == states@,
    {
        X11Backend { states }
    }

    /// The settings that are kept.
    pub fn states(&self) -> (r: &ByName<X11ColorState>)
        ensures
            r@ == self@,
    {
        &self.states
    }

    /// The settings of the output, which are kept from now on.
    pub fn get_color_state(&mut self, output: &str) -> (r: X11ColorState)
        ensures
            r == state_of(old(self)@, output@),
            final(self)@ == old(self)@.insert(output@, r),
    {
        match self.states.get(output) {
            Some(s) => {
                assert(self@.insert(output@, s) =~= self@);
                s
            },
            None => {
                let s = neutral();
                self.states.set(output, s);
                s
            },
        }
    }

    /// Keeps what the updater makes of the settings of the output, and returns it. The updater is
    /// called once.
    pub fn update_color_state<F: FnOnce(X11ColorState) -> X11ColorState>(
        &mut self,
        output: &str,
        updater: F,
    ) -> (r: X11ColorState)
        requires
            call_requires(updater, (state_of(old(self)@, output@),)),
        ensures
            call_ensures(updater, (state_of(old(self)@, output@),), r),
            final(self)@ == old(self)@.insert(output@, r),
    {
        let ghost before = self@;
        let s = self.get_color_state(output);
        let s = updater(s);
        self.states.set(output, s);
        assert(self@ =~= before.insert(output@, s));
        s
    }

    /// Keeps a new brightness for the output and returns its settings.
    pub fn set_brightness(&mut self, output: &str, value: Single) -> (r: X11ColorState)
        ensures
            r == (X11ColorState {
                brightness: float::clamped(value),
                ..state_of(old(self)@, output@)
            }),
            final(self)@ == old(self)@.insert(output@, r),
    {
        let brightness = value.clamped();
        let update = |s: X11ColorState| -> (r: X11ColorState)
            ensures
                r == (X11ColorState { brightness, ..s }),
            {
                X11ColorState { brightness, gamma: s.gamma, temperature: s.temperature }
            };
        self.update_color_state(output, update)
    }

    /// Keeps a new gamma for the output and returns its settings.
    pub fn set_gamma(&mut self, output: &str, value: Single) -> (r: X11ColorState)
        ensures
            r == (X11ColorState {
                gamma: float::at_least(value, float::single(float::TENTH)),
                ..state_of(old(self)@, output@)
            }),
            final(self)@ == old(self)@.insert(output@, r),
    {
        let gamma = value.at_least(Single { bits: float::TENTH });
        let update = |s: X11ColorState| -> (r: X11ColorState)
            ensures
                r == (X11ColorState { gamma, ..s }),
            {
                X11ColorState { brightness: s.brightness, gamma, temperature: s.temperature }
            };
        self.update_color_state(output, update)
    }

    /// Keeps a new temperature for the output and returns its settings.
    pub fn set_temperature(&mut self, output: &str, value: u16) -> (r: X11ColorState)
        ensures
            r == (X11ColorState {
                temperature: kelvin_in_range(value),
                ..state_of(old(self)@, output@)
            }),
            final(self)@ == old(self)@.insert(output@, r),
    {
        let temperature: u16 = if value < MIN_KELVIN {
            MIN_KELVIN
        } else if value > MAX_KELVIN {
            MAX_KELVIN
        } else {
            value
        };
        let update = |s: X11ColorState| -> (r: X11ColorState)
            ensures
                r == (X11ColorState { temperature, ..s }),
            {
                X11ColorState { brightness: s.brightness, gamma: s.gamma, temperature }
            };
        self.update_color_state(output, update)
    }

    /// What a change comes to, once `xrandr` has been called for it.
    pub fn change_result(outcome: Outcome) -> (r: Result<(), String>)
        ensures
            match change_outcome(outcome) {
                Ok(()) => r is Ok,
                Err(m) => r matches Err(n) && n@ == m,
            },
    {
        match program::output_of("xrandr", outcome) {
            Ok(_) => Ok(()),
            Err(m) => Err(m),
        }
    }

    /// Takes up outputs that were not seen before, and puts into each output the settings that
    /// are kept for it. The second result is whether an output was taken up.
    pub fn merge_color_states(&mut self, outputs: Vec<DisplayOutput>) -> (r: (
        Vec<DisplayOutput>,
        bool,
    ))
        ensures
            models::views(r.0@) == all_colored(old(self)@, models::views(outputs@)),
            final(self)@ == all_adopted(old(self)@, models::views(outputs@)),
            r.1 == (final(self)@ != old(self)@),
    {
        let ghost start = self@;
        let ghost given = models::views(outputs@);
        let ghost count = outputs@.len();
        let mut outputs = outputs;
        let mut changed = false;
        let mut i: usize = 0;
        while i < outputs.len()
            invariant
                i <= outputs@.len(),
                outputs@.len() == count,
                given.len() == count,
                self@ == all_adopted(start, given.take(i as int)),
                changed == (self@ != start),
                start.dom().subset_of(self@.dom()),
                forall|j: int| i <= j < count ==> (#[trigger] outputs@[j])@ == given[j],
                forall|j: int|
                    0 <= j < i ==> (#[trigger] outputs@[j])@ == all_colored(start, given)[j],
            decreases outputs.len() - i,
        {
            let ghost before = self@;
            assert(outputs@[i as int]@ == given[i as int]);
            if outputs[i].enabled && self.states.get(outputs[i].name.as_str()).is_none() {
                let first = first_state_of(outputs[i].color);
                self.states.set(outputs[i].name.as_str(), first);
                changed = true;
                assert(self@.dom().contains(given[i as int].name));
                assert(!start.dom().contains(given[i as int].name));
            }
            proof {
                assert(given.take(i + 1).drop_last() == given.take(i as int));
                assert(self@ == all_adopted(start, given.take(i + 1)));
            }
            if let Some(s) = self.states.get(outputs[i].name.as_str()) {
                outputs[i].color = DisplayColorSettings {
                    brightness: Some(s.brightness),
                    gamma: Some(s.gamma),
                    temperature: Some(s.temperature),
                };
            }
            assert(outputs@[i as int]@ =~= all_colored(start, given)[i as int]);
            i = i + 1;
        }
        assert(given.take(count as int) == given);
        assert(models::views(outputs@) =~= all_colored(start, given));
        (outputs, changed)
    }

    /// The arguments that set a mode.
    pub fn set_mode(output: &str, mode: DisplayMode) -> (r: Vec<String>)
        ensures
            spec::strings(r@) == mode_args(output@, mode),
    {
        let size = models::size_string(mode.width, mode.height);
        let mut r = command::args4("--output", output, "--mode", size.as_str());
        if let Some(hz) = mode.refresh_hz {
            if hz.is_positive() {
                let rate = hz.fixed(3);
                r.push(String::from_str("--rate"));
                r.push(text::string_of(rate.as_slice()));
            }
        }
        assert(spec::strings(r@) =~= mode_args(output@, mode));
        r
    }

    /// The arguments that set a scale.
    pub fn set_scale(output: &str, scale: Double) -> (r: Vec<String>)
        ensures
            spec::strings(r@) == scale_args(output@, scale),
    {
        let number = scale.to_text();
        let mut both = String::from_str(number.as_str());
        both.append("x");
        both.append(number.as_str());
        command::args4("--output", output, "--scale", both.as_str())
    }

    /// The arguments that switch an output on or off.
    pub fn set_enabled(output: &str, enabled: bool) -> (r: Vec<String>)
        ensures
            spec::strings(r@) == enabled_args(output@, enabled),
    {
        command::args3(
            "--output",
            output,
            if enabled {
                "--auto"
            } else {
                "--off"
            },
        )
    }

    /// The arguments that set a position.
    pub fn set_position(output: &str, x: i32, y: i32) -> (r: Vec<String>)
        ensures
            spec::strings(r@) == position_args(output@, x, y),
    {
        let pos = command::pair(x, "x", y);
        command::args4("--output", output, "--pos", pos.as_str())
    }

    /// The arguments that place an output next to another one.
    pub fn set_position_relative(
        output: &str,
        relative_to: &str,
        direction: &str,
    ) -> (r: Result<Vec<String>, BackendError>)
        ensures
            match models::side_named(direction@) {
                Some(side) => r matches Ok(v) && spec::strings(v@) == beside_args(
                    output@,
                    side,
                    relative_to@,
                ),
                None => r == Err::<Vec<String>, BackendError>(BackendError::InvalidDirection),
            },
    {
        match models::read_side(direction) {
            Some(side) => Ok(command::args4("--output", output, flag_of(side), relative_to)),
            None => Err(BackendError::InvalidDirection),
        }
    }

    /// The arguments that set a transform.
    pub fn set_transform(output: &str, transform: &str) -> (r: Vec<String>)
        ensures
            spec::strings(r@) == transform_args(output@, transform@),
    {
        command::args4("--output", output, "--rotate", transform)
    }

    /// The arguments that have an output show what another one shows.
    pub fn set_mirror(output: &str, target: &str) -> (r: Vec<String>)
        ensures
            spec::strings(r@) == mirror_args(output@, target@),
    {
        command::args4("--output", output, "--same-as", target)
    }

    /// The arguments that apply settings, given how much there is to be of each channel.
    pub fn apply_color_args(
        output: &str,
        state: X11ColorState,
        red: Double,
        green: Double,
        blue: Double,
    ) -> (r: Vec<String>)
        ensures
            spec::strings(r@) == color_args(output@, state, red, green, blue),
    {
        let brightness = state.brightness.clamped().to_text();
        let r = channel_gamma_of(state.gamma, red).fixed(4);
        let g = channel_gamma_of(state.gamma, green).fixed(4);
        let b = channel_gamma_of(state.gamma, blue).fixed(4);
        let mut gamma = text::string_of(r.as_slice());
        gamma.append(":");
        text::push_chars(&mut gamma, g.as_slice());
        gamma.append(":");
        text::push_chars(&mut gamma, b.as_slice());
        let mut args = command::args4("--output", output, "--brightness", brightness.as_str());
        command::push(&mut args, "--gamma");
        command::push(&mut args, gamma.as_str());
        args
    }
}

/// The bit pattern of ten.
pub const TEN_DOUBLE: u64 = 0x4024_0000_0000_0000;

/// The gamma of a channel: the one of the output, of at least a tenth, times how much there is to
/// be of the channel, from a tenth to ten.
pub open spec fn channel_gamma(gamma: Single, share: Double) -> Double {
    float::between(
        float::times(
            float::at_least_double(float::widened(gamma), float::double(float::TENTH_DOUBLE)),
            share,
        ),
        float::double(float::TENTH_DOUBLE),
        float::double(TEN_DOUBLE),
    )
}

fn channel_gamma_of(gamma: Single, share: Double) -> (r: Double)
    ensures
        r == channel_gamma(gamma, share),
{
    let least = Double { bits: float::TENTH_DOUBLE };
    gamma.widened().at_least(least).times(share).between(least, Double { bits: TEN_DOUBLE })
}

/// Settings that a backend may keep: a brightness from zero to one, a gamma of at least a tenth,
/// and a temperature in its range.
pub open spec fn in_range(s: X11ColorState) -> bool {
    &&& s.brightness == float::clamped(s.brightness)
    &&& s.gamma == float::at_least(s.gamma, float::single(float::TENTH))
    &&& MIN_KELVIN <= s.temperature <= MAX_KELVIN
}

pub open spec fn all_in_range(states: Map<Seq<char>, X11ColorState>) -> bool {
    forall|name: Seq<char>| #[trigger]
        states.dom().contains(name) ==> in_range(states[name])
}

/// Settings that are put under an output's name are read back there, and the settings of the
/// other outputs stay as they are.
pub proof fn kept_settings_are_read_back(
    states: Map<Seq<char>, X11ColorState>,
    output: Seq<char>,
    other: Seq<char>,
    s: X11ColorState,
)
    ensures
        state_of(states.insert(output, s), output) == s,
        other != output ==> state_of(states.insert(output, s), other) == state_of(states, other),
{
}

/// What a change comes to, by what came of the call of `xrandr`.
pub open spec fn change_outcome(outcome: Outcome) -> Result<(), Seq<char>> {
    match outcome.output("xrandr"@) {
        Ok(_) => Ok(()),
        Err(m) => Err(m),
    }
}

/// A new temperature is kept within its range, with the other settings of the output as they
/// were, and the other outputs keep theirs, whatever comes of the call of `xrandr`; the change
/// fails exactly if `xrandr` could not be run or has ended with a failure.
pub proof fn temperature_is_kept_whatever_comes_of_it(
    states: Map<Seq<char>, X11ColorState>,
    output: Seq<char>,
    other: Seq<char>,
    value: u16,
    outcome: Outcome,
)
    ensures
        ({
            let before = state_of(states, output);
            let s = X11ColorState { temperature: kelvin_in_range(value), ..before };
            let after = states.insert(output, s);
            &&& MIN_KELVIN <= state_of(after, output).temperature <= MAX_KELVIN
            &&& MIN_KELVIN <= value <= MAX_KELVIN ==> state_of(after, output).temperature == value
            &&& state_of(after, output).brightness == before.brightness
            &&& state_of(after, output).gamma == before.gamma
            &&& other != output ==> state_of(after, other) == state_of(states, other)
            &&& change_outcome(outcome) is Err <==> outcome is NotRun || !outcome->success
        }),
{
}

/// Each of the three settings can be changed to any value and stays in its range, and so do the
/// others.
pub proof fn changed_settings_are_in_range(
    states: Map<Seq<char>, X11ColorState>,
    output: Seq<char>,
    value: Single,
    kelvin: u16,
)
    requires
        all_in_range(states),
    ensures
        ({
            let s = state_of(states, output);
            &&& in_range(X11ColorState { brightness: float::clamped(value), ..s })
            &&& in_range(
                X11ColorState {
                    gamma: float::at_least(value, float::single(float::TENTH)),
                    ..s
                },
            )
            &&& in_range(X11ColorState { temperature: kelvin_in_range(kelvin), ..s })
        }),
{
    float::clamping_is_stable(value);
    lemma_neutral_in_range();
}

proof fn lemma_neutral_in_range()
    ensures
        in_range(neutral_state()),
{
    vstd::arithmetic::power2::lemma2_to64();
}

/// Seeing outputs keeps all settings in range, leaves those of known outputs as they are, and
/// gives settings to every enabled output.
pub proof fn seen_outputs_have_settings(
    states: Map<Seq<char>, X11ColorState>,
    outputs: Seq<OutputView>,
    k: int,
)
    requires
        all_in_range(states),
        0 <= k < outputs.len(),
    ensures
        all_in_range(all_adopted(states, outputs)),
        states.submap_of(all_adopted(states, outputs)),
        outputs[k].enabled ==> all_adopted(states, outputs).dom().contains(outputs[k].name),
        outputs[k].enabled ==> all_colored(states, outputs)[k].color.temperature is Some,
    decreases outputs.len(),
{
    lemma_adopted(states, outputs);
    lemma_adopted_grows(states, outputs, k + 1);
    let upto = outputs.take(k + 1);
    assert(upto.last() == outputs[k]);
}

proof fn lemma_adopted(states: Map<Seq<char>, X11ColorState>, outputs: Seq<OutputView>)
    requires
        all_in_range(states),
    ensures
        all_in_range(all_adopted(states, outputs)),
        states.submap_of(all_adopted(states, outputs)),
    decreases outputs.len(),
{
    if outputs.len() > 0 {
        lemma_adopted(states, outputs.drop_last());
        let color = outputs.last().color;
        float::clamping_is_stable(or_one(color.brightness));
        assert(in_range(first_state(color)));
    }
}

proof fn lemma_adopted_grows(
    states: Map<Seq<char>, X11ColorState>,
    outputs: Seq<OutputView>,
    k: int,
)
    requires
        0 <= k <= outputs.len(),
    ensures
        all_adopted(states, outputs.take(k)).submap_of(all_adopted(states, outputs)),
    decreases outputs.len(),
{
    if k < outputs.len() {
        lemma_adopted_grows(states, outputs.drop_last(), k);
        assert(outputs.drop_last().take(k) == outputs.take(k));
    } else {
        assert(outputs.take(k) == outputs);
    }
}

/// Seeing the same outputs again changes nothing.
pub proof fn seeing_outputs_again_changes_nothing(
    states: Map<Seq<char>, X11ColorState>,
    outputs: Seq<OutputView>,
)
    ensures
        all_adopted(all_adopted(states, outputs), outputs) == all_adopted(states, outputs),
{
    let after = all_adopted(states, outputs);
    assert forall|k: int| 0 <= k < outputs.len() && outputs[k].enabled implies after.dom().contains(
        (#[trigger] outputs[k]).name,
    ) by {
        lemma_adopted_grows(states, outputs, k + 1);
        assert(outputs.take(k + 1).last() == outputs[k]);
        assert(all_adopted(states, outputs.take(k + 1)).dom().contains(outputs[k].name));
    }
    lemma_known(after, outputs);
}

proof fn lemma_known(states: Map<Seq<char>, X11ColorState>, outputs: Seq<OutputView>)
    requires
        forall|k: int|
            0 <= k < outputs.len() && outputs[k].enabled ==> states.dom().contains(
                (#[trigger] outputs[k]).name,
            ),
    ensures
        all_adopted(states, outputs) == states,
    decreases outputs.len(),
{
    if outputs.len() > 0 {
        let t = outputs.drop_last();
        assert forall|k: int| 0 <= k < t.len() && t[k].enabled implies states.dom().contains(
            (#[trigger] t[k]).name,
        ) by {
            assert(t[k] == outputs[k]);
        }
        lemma_known(states, t);
        assert(outputs[outputs.len() - 1] == outputs.last());
    }
}

} // verus!
