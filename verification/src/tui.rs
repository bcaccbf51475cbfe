//! The interactive interface: what it shows, and how it answers keys.
//!
//! The state here knows nothing of terminals, processes or the bus. A key may ask for a command;
//! the caller carries it out and reports back what came of it.
use vstd::prelude::*;

use crate::backend::BackendKind;
use crate::models;
use crate::models::{DisplayOutput, OutputView};
use crate::text;
use crate::text_spec as spec;

pub mod laws;
pub mod menu;
pub mod screen;

verus! {

/// A setting of an output that can be selected.
#[derive(Clone, Copy, Debug, PartialEq, Eq, Structural)]
pub enum Field {
    Enabled,
    Mode,
    Position,
    Mirror,
    Transform,
    Scale,
    AdaptiveSync,
    Brightness,
    Gamma,
    Temperature,
}

impl Field {
    /// The number of the field, from left to right.
    pub open spec fn number(self) -> int {
        match self {
            Field::Enabled => 0,
            Field::Mode => 1,
            Field::Position => 2,
            Field::Mirror => 3,
            Field::Transform => 4,
            Field::Scale => 5,
            Field::AdaptiveSync => 6,
            Field::Brightness => 7,
            Field::Gamma => 8,
            Field::Temperature => 9,
        }
    }

    /// The field to the right; after the last comes the first.
    pub fn next(&self) -> (r: Self)
        ensures
            r.number() == (self.number() + 1) % 10,
    {
        match self {
            Field::Enabled => Field::Mode,
            Field::Mode => Field::Position,
            Field::Position => Field::Mirror,
            Field::Mirror => Field::Transform,
            Field::Transform => Field::Scale,
            Field::Scale => Field::AdaptiveSync,
            Field::AdaptiveSync => Field::Brightness,
            Field::Brightness => Field::Gamma,
            Field::Gamma => Field::Temperature,
            Field::Temperature => Field::Enabled,
        }
    }

    /// The field to the left; before the first comes the last.
    pub fn prev(&self) -> (r: Self)
        ensures
            r.number() == (self.number() + 9) % 10,
    {
        match self {
            Field::Enabled => Field::Temperature,
            Field::Mode => Field::Enabled,
            Field::Position => Field::Mode,
            Field::Mirror => Field::Position,
            Field::Transform => Field::Mirror,
            Field::Scale => Field::Transform,
            Field::AdaptiveSync => Field::Scale,
            Field::Brightness => Field::AdaptiveSync,
            Field::Gamma => Field::Brightness,
            Field::Temperature => Field::Gamma,
        }
    }

    /// Whether the menu closes once something in it was chosen.
    pub fn should_close_on_apply(&self) -> (r: bool)
        ensures
            r == (*self == Field::Enabled || *self == Field::Mode),
    {
        match self {
            Field::Enabled | Field::Mode => true,
            _ => false,
        }
    }

    pub open spec fn label_text(self) -> Seq<char> {
        match self {
            Field::Enabled => "Enabled"@,
            Field::Mode => "Mode"@,
            Field::Position => "Position"@,
            Field::Mirror => "Mirror"@,
            Field::Transform => "Transform"@,
            Field::Scale => "Scale"@,
            Field::AdaptiveSync => "AdaptiveSync"@,
            Field::Brightness => "Brightness"@,
            Field::Gamma => "Gamma"@,
            Field::Temperature => "Temperature"@,
        }
    }

    pub fn label(&self) -> (r: &'static str)
        ensures
            r@ == self.label_text(),
    {
        match self {
            Field::Enabled => "Enabled",
            Field::Mode => "Mode",
            Field::Position => "Position",
            Field::Mirror => "Mirror",
            Field::Transform => "Transform",
            Field::Scale => "Scale",
            Field::AdaptiveSync => "AdaptiveSync",
            Field::Brightness => "Brightness",
            Field::Gamma => "Gamma",
            Field::Temperature => "Temperature",
        }
    }
}

/// How a mirrored output is fitted to the screen.
#[derive(Clone, Copy, Debug, PartialEq, Eq, Structural)]
pub enum MirrorScaling {
    Fit,
    Cover,
    Exact,
    Linear,
}

impl MirrorScaling {
    /// All scalings, in the order of the menu.
    pub fn all() -> (r: [MirrorScaling; 4])
        ensures
            r@ == seq![
                MirrorScaling::Fit,
                MirrorScaling::Cover,
                MirrorScaling::Exact,
                MirrorScaling::Linear,
            ],
            forall|i: int| 0 <= i < 4 ==> (#[trigger] r@[i]).place() == i,
    {
        [MirrorScaling::Fit, MirrorScaling::Cover, MirrorScaling::Exact, MirrorScaling::Linear]
    }

    /// The place of the scaling in the menu.
    pub open spec fn place(self) -> int {
        match self {
            MirrorScaling::Fit => 0,
            MirrorScaling::Cover => 1,
            MirrorScaling::Exact => 2,
            MirrorScaling::Linear => 3,
        }
    }

    pub open spec fn label_text(self) -> Seq<char> {
        match self {
            MirrorScaling::Fit => "Fit"@,
            MirrorScaling::Cover => "Cover"@,
            MirrorScaling::Exact => "Exact"@,
            MirrorScaling::Linear => "Linear"@,
        }
    }

    pub open spec fn arg_text(self) -> Seq<char> {
        match self {
            MirrorScaling::Fit => "fit"@,
            MirrorScaling::Cover => "cover"@,
            MirrorScaling::Exact => "exact"@,
            MirrorScaling::Linear => "linear"@,
        }
    }

    pub fn label(&self) -> (r: &'static str)
        ensures
            r@ == self.label_text(),
    {
        match self {
            MirrorScaling::Fit => "Fit",
            MirrorScaling::Cover => "Cover",
            MirrorScaling::Exact => "Exact",
            MirrorScaling::Linear => "Linear",
        }
    }

    /// The scaling as the mirroring program takes it.
    pub fn arg(&self) -> (r: &'static str)
        ensures
            r@ == self.arg_text(),
    {
        match self {
            MirrorScaling::Fit => "fit",
            MirrorScaling::Cover => "cover",
            MirrorScaling::Exact => "exact",
            MirrorScaling::Linear => "linear",
        }
    }

    pub fn place_in_menu(&self) -> (r: usize)
        ensures
            r == self.place(),
    {
        match self {
            MirrorScaling::Fit => 0,
            MirrorScaling::Cover => 1,
            MirrorScaling::Exact => 2,
            MirrorScaling::Linear => 3,
        }
    }
}

/// A mirroring that waits for its scaling to be chosen: `dest` is to show `source`.
#[derive(Debug)]
pub struct MirrorSetup {
    pub dest: String,
    pub source: String,
}

/// The state of the interface.
#[derive(Debug)]
pub struct TuiState {
    pub(crate) backend: BackendKind,
    pub(crate) outputs: Vec<DisplayOutput>,
    pub(crate) selected_output: usize,
    pub(crate) selected_field: Field,
    pub(crate) dropdown_open: bool,
    pub(crate) dropdown_selection: usize,
    pub(crate) status: String,
    /// The outputs that show another one.
    pub(crate) mirroring: Vec<String>,
    pub(crate) mirror_pending: Option<MirrorSetup>,
    pub(crate) mirror_scaling: MirrorScaling,
}

/// What the state of the interface holds.
#[verifier::ext_equal]
pub struct TuiView {
    pub backend: BackendKind,
    pub outputs: Seq<OutputView>,
    pub selected_output: int,
    pub selected_field: Field,
    pub dropdown_open: bool,
    pub dropdown_selection: int,
    pub status: Seq<char>,
    pub mirroring: Seq<Seq<char>>,
    /// The output that is to show, and the one that is to be shown.
    pub mirror_pending: Option<(Seq<char>, Seq<char>)>,
    pub mirror_scaling: MirrorScaling,
}

impl View for TuiState {
    type V = TuiView;

    closed spec fn view(&self) -> TuiView {
        TuiView {
            backend: self.backend,
            outputs: models::views(self.outputs@),
            selected_output: self.selected_output as int,
            selected_field: self.selected_field,
            dropdown_open: self.dropdown_open,
            dropdown_selection: self.dropdown_selection as int,
            status: self.status@,
            mirroring: spec::strings(self.mirroring@),
            mirror_pending: match self.mirror_pending {
                Some(m) => Some((m.dest@, m.source@)),
                None => None,
            },
            mirror_scaling: self.mirror_scaling,
        }
    }
}

/// Whether an output with the name is in the list.
pub open spec fn is_output(outputs: Seq<OutputView>, name: Seq<char>) -> bool {
    exists|i: int| 0 <= i < outputs.len() && (#[trigger] outputs[i]).name == name
}

pub(crate) fn has_output(outputs: &Vec<DisplayOutput>, name: &str) -> (r: bool)
    ensures
        r == is_output(models::views(outputs@), name@),
{
    let ghost os = models::views(outputs@);
    let mut i: usize = 0;
    while i < outputs.len()
        invariant
            i <= outputs@.len(),
            os == models::views(outputs@),
            forall|j: int| 0 <= j < i ==> (#[trigger] os[j]).name != name@,
        decreases outputs.len() - i,
    {
        if text::same_str(outputs[i].name.as_str(), name) {
            assert(os[i as int].name == name@);
            return true;
        }
        i = i + 1;
    }
    false
}

/// The state with the menu closed.
pub open spec fn menu_closed(v: TuiView) -> TuiView {
    TuiView { dropdown_open: false, dropdown_selection: 0, ..v }
}

/// The state after a refresh: the selection starts anew where its output is gone, and so does a
/// mirroring that waits for its scaling.
pub open spec fn refreshed(
    v: TuiView,
    outputs: Seq<OutputView>,
    mirroring: Seq<Seq<char>>,
) -> TuiView {
    let w = TuiView {
        outputs,
        mirroring,
        selected_output: if outputs.len() > 0 && v.selected_output >= outputs.len() {
            0
        } else {
            v.selected_output
        },
        ..v
    };
    match v.mirror_pending {
        Some(p) => if is_output(outputs, p.0) && is_output(outputs, p.1) {
            w
        } else {
            menu_closed(
                TuiView {
                    mirror_pending: None,
                    status: "Mirror setup cancelled: output disconnected"@,
                    ..w
                },
            )
        },
        None => w,
    }
}

/// The state after a command: a failure is shown, and the menu closes where it is to close.
pub open spec fn finished(v: TuiView) -> TuiView {
    if v.selected_field == Field::Enabled || v.selected_field == Field::Mode {
        menu_closed(v)
    } else {
        v
    }
}

/// The number after the given one, in a circle.
pub open spec fn after(n: int, count: int) -> int {
    (n + 1) % count
}

/// The number before the given one, in a circle.
pub open spec fn before(n: int, count: int) -> int {
    if n == 0 {
        count - 1
    } else {
        n - 1
    }
}

pub(crate) fn step_forward(n: usize, count: usize) -> (r: usize)
    requires
        count > 0,
    ensures
        r == after(n as int, count as int),
        r < count,
{
    let m = n % count;
    proof {
        vstd::arithmetic::div_mod::lemma_fundamental_div_mod(n as int, count as int);
        let q = n as int / count as int;
        assert(count * q == q * count) by (nonlinear_arith);
        assert((q + 1) * count == q * count + count) by (nonlinear_arith);
        if m + 1 == count {
            vstd::arithmetic::div_mod::lemma_fundamental_div_mod_converse(
                n + 1,
                count as int,
                q + 1,
                0,
            );
        } else {
            vstd::arithmetic::div_mod::lemma_fundamental_div_mod_converse(
                n + 1,
                count as int,
                q,
                m + 1,
            );
        }
    }
    if m + 1 == count {
        0
    } else {
        m + 1
    }
}

pub(crate) fn step_back(n: usize, count: usize) -> (r: usize)
    requires
        count > 0,
    ensures
        r == before(n as int, count as int),
{
    if n == 0 {
        count - 1
    } else {
        n - 1
    }
}

impl TuiState {
    /// The state before anything is known.
    pub fn new(backend: BackendKind) -> (r: Self)
        ensures
            r@ == (TuiView {
                backend,
                outputs: seq![],
                selected_output: 0,
                selected_field: Field::Mode,
                dropdown_open: false,
                dropdown_selection: 0,
                status: "Ready"@,
                mirroring: seq![],
                mirror_pending: None,
                mirror_scaling: MirrorScaling::Fit,
            }),
    {
        let r = TuiState {
            backend,
            outputs: Vec::new(),
            selected_output: 0,
            selected_field: Field::Mode,
            dropdown_open: false,
            dropdown_selection: 0,
            status: String::from_str("Ready"),
            mirroring: Vec::new(),
            mirror_pending: None,
            mirror_scaling: MirrorScaling::Fit,
        };
        assert(models::views(r.outputs@) =~= seq![]);
        assert(spec::strings(r.mirroring@) =~= seq![]);
        r
    }

    pub fn backend(&self) -> (r: BackendKind)
        ensures
            r == self@.backend,
    {
        self.backend
    }

    pub fn outputs(&self) -> (r: &Vec<DisplayOutput>)
        ensures
            models::views(r@) == self@.outputs,
    {
        &self.outputs
    }

    pub fn status(&self) -> (r: &String)
        ensures
            r@ == self@.status,
    {
        &self.status
    }

    pub fn selected_output(&self) -> (r: usize)
        ensures
            r == self@.selected_output,
    {
        self.selected_output
    }

    pub fn selected_field(&self) -> (r: Field)
        ensures
            r == self@.selected_field,
    {
        self.selected_field
    }

    pub fn dropdown_open(&self) -> (r: bool)
        ensures
            r == self@.dropdown_open,
    {
        self.dropdown_open
    }

    pub fn dropdown_selection(&self) -> (r: usize)
        ensures
            r == self@.dropdown_selection,
    {
        self.dropdown_selection
    }

    /// Whether a mirroring waits for its scaling to be chosen.
    pub fn has_pending(&self) -> (r: bool)
        ensures
            r == self@.mirror_pending is Some,
    {
        self.mirror_pending.is_some()
    }

    /// Whether the output shows another one.
    pub fn is_mirroring(&self, name: &str) -> (r: bool)
        ensures
            r == self@.mirroring.contains(name@),
    {
        let s = text::chars_of(name);
        crate::gnome::connectors::is_among(&self.mirroring, s.as_slice())
    }

    /// Takes in the outputs as they are now, and which of them show another one.
    pub fn refresh_outputs(&mut self, outputs: Vec<DisplayOutput>, mirroring: Vec<String>)
        ensures
            final(self)@ == refreshed(
                old(self)@,
                models::views(outputs@),
                spec::strings(mirroring@),
            ),
    {
        let ghost start = self@;
        let ghost os = models::views(outputs@);
        if outputs.len() > 0 && self.selected_output >= outputs.len() {
            self.selected_output = 0;
        }
        self.mirroring = mirroring;
        let gone = match &self.mirror_pending {
            Some(p) => !has_output(&outputs, p.dest.as_str()) || !has_output(
                &outputs,
                p.source.as_str(),
            ),
            None => false,
        };
        self.outputs = outputs;
        if gone {
            self.mirror_pending = None;
            self.dropdown_open = false;
            self.dropdown_selection = 0;
            self.status = String::from_str("Mirror setup cancelled: output disconnected");
        }
        assert(self@ =~= refreshed(start, os, self@.mirroring));
    }

    /// Shows a failure.
    pub fn handle_action_error(&mut self, error: &str)
        ensures
            final(self)@ == (TuiView { status: "Error: "@ + error@, ..old(self)@ }),
    {
        let mut s = String::from_str("Error: ");
        s.append(error);
        self.status = s;
    }

    /// Takes in the outputs after the user has asked for them.
    pub fn manual_refresh(&mut self, outputs: Vec<DisplayOutput>, mirroring: Vec<String>)
        ensures
            final(self)@ == (TuiView {
                status: "Outputs refreshed"@,
                ..refreshed(old(self)@, models::views(outputs@), spec::strings(mirroring@))
            }),
    {
        self.refresh_outputs(outputs, mirroring);
        self.status = String::from_str("Outputs refreshed");
    }

    /// Takes in that a command was carried out, with the outputs after it.
    pub fn command_done(
        &mut self,
        message: String,
        outputs: Vec<DisplayOutput>,
        mirroring: Vec<String>,
    )
        ensures
            final(self)@ == finished(
                TuiView {
                    status: message@,
                    ..refreshed(old(self)@, models::views(outputs@), spec::strings(mirroring@))
                },
            ),
    {
        self.refresh_outputs(outputs, mirroring);
        self.status = message;
        self.close_if_done();
    }

    /// Takes in that a command failed.
    pub fn command_failed(&mut self, error: &str)
        ensures
            final(self)@ == finished(
                TuiView { status: "Error: "@ + error@, ..old(self)@ },
            ),
    {
        self.handle_action_error(error);
        self.close_if_done();
    }

    pub(crate) fn close_if_done(&mut self)
        ensures
            final(self)@ == finished(old(self)@),
    {
        if self.selected_field.should_close_on_apply() {
            self.dropdown_open = false;
            self.dropdown_selection = 0;
        }
    }

    /// Takes in that a mirroring was started.
    pub fn mirror_started(&mut self, dest: &str, message: String)
        ensures
            final(self)@ == after_start(old(self)@, dest@, message@),
    {
        let ghost before = self@;
        if !self.is_mirroring(dest) {
            self.mirroring.push(String::from_str(dest));
            assert(self@.mirroring =~= before.mirroring.push(dest@));
        }
        self.status = message;
    }

    /// Takes in that a mirroring could not be started.
    pub fn mirror_failed(&mut self, error: &str)
        ensures
            final(self)@ == (TuiView {
                status: "Error: wl-mirror not found: "@ + error@,
                ..old(self)@
            }),
    {
        let mut s = String::from_str("Error: wl-mirror not found: ");
        s.append(error);
        self.status = s;
    }

    /// Takes in that a mirroring was ended, with the outputs after it where they are known.
    pub fn mirror_stopped(
        &mut self,
        output: &str,
        now: Option<(Vec<DisplayOutput>, Vec<String>)>,
    )
        ensures
            final(self)@ == after_stop(
                old(self)@,
                output@,
                match now {
                    Some(t) => Some((models::views(t.0@), spec::strings(t.1@))),
                    None => None,
                },
            ),
    {
        match now {
            Some((outputs, mirroring)) => self.refresh_outputs(outputs, mirroring),
            None => {
                let kept = names_without(&self.mirroring, output);
                self.mirroring = kept;
            },
        }
        let mut s = String::from_str(output);
        s.append(": mirroring stopped, layout restored");
        self.status = s;
    }

    /// Takes in that there was no mirroring to end.
    pub fn no_mirroring(&mut self, output: &str)
        ensures
            final(self)@ == (TuiView {
                status: output@ + ": no active mirroring"@,
                ..old(self)@
            }),
    {
        let mut s = String::from_str(output);
        s.append(": no active mirroring");
        self.status = s;
    }
}

/// What is shown once a mirroring was started.
pub open spec fn after_start(v: TuiView, dest: Seq<char>, message: Seq<char>) -> TuiView {
    TuiView {
        mirroring: if v.mirroring.contains(dest) {
            v.mirroring
        } else {
            v.mirroring.push(dest)
        },
        status: message,
        ..v
    }
}

/// What is shown once a mirroring was ended, with the outputs after it where they are known.
pub open spec fn after_stop(
    v: TuiView,
    output: Seq<char>,
    now: Option<(Seq<OutputView>, Seq<Seq<char>>)>,
) -> TuiView {
    TuiView {
        status: output + ": mirroring stopped, layout restored"@,
        ..match now {
            Some(t) => refreshed(v, t.0, t.1),
            None => TuiView { mirroring: without_name(v.mirroring, output), ..v },
        }
    }
}

/// The names without the given one.
pub open spec fn without_name(s: Seq<Seq<char>>, name: Seq<char>) -> Seq<Seq<char>>
    decreases s.len(),
{
    if s.len() == 0 {
        seq![]
    } else if s.last() == name {
        without_name(s.drop_last(), name)
    } else {
        without_name(s.drop_last(), name).push(s.last())
    }
}

fn names_without(v: &Vec<String>, name: &str) -> (r: Vec<String>)
    ensures
        spec::strings(r@) == without_name(spec::strings(v@), name@),
{
    let ghost all = spec::strings(v@);
    let mut r: Vec<String> = Vec::new();
    let mut i: usize = 0;
    assert(spec::strings(r@) =~= without_name(all.take(0), name@));
    while i < v.len()
        invariant
            i <= v@.len(),
            all == spec::strings(v@),
            spec::strings(r@) == without_name(all.take(i as int), name@),
        decreases v.len() - i,
    {
        let ghost before = r@;
        assert(all.take(i + 1).drop_last() == all.take(i as int));
        if !text::same_str(v[i].as_str(), name) {
            r.push(v[i].clone());
            assert(spec::strings(r@) =~= spec::strings(before).push(all[i as int]));
        }
        i = i + 1;
    }
    assert(all.take(all.len() as int) == all);
    r
}

} // verus!
