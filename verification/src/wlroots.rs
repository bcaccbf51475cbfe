//! The backend for wlroots compositors: calls of `wlr-randr`, and the service `wl-gammarelay`
//! for the color settings.
use vstd::prelude::*;

use crate::by_name::ByName;
use crate::command;
use crate::decimal;
use crate::errors::BackendError;
use crate::float;
use crate::float::{Double, Single};
use crate::models;
use crate::models::{
    DisplayColorCapabilities, DisplayColorSettings, DisplayMode, DisplayOutput, OutputView,
};
use crate::text;
use crate::text_spec as spec;
use crate::x11;

pub mod laws;

verus! {

/// Control of the outputs of a wlroots compositor.
pub struct WlrootsBackend;

/// How often the service is looked for before it is given up.
pub const GAMMARELAY_MAX_ATTEMPTS: u8 = 25;

/// Where the search for the service stands.
#[derive(Clone, Copy, Debug, PartialEq, Eq, Structural)]
pub struct Search {
    pub attempts: u8,
    pub spawned: bool,
}

/// What came of looking for the service.
#[derive(Clone, Copy, Debug, PartialEq, Eq, Structural)]
pub enum SearchEvent {
    /// The bus could not be asked.
    Failed,
    Present,
    Absent,
}

/// What the search does next.
#[derive(Clone, Copy, Debug, PartialEq, Eq, Structural)]
pub enum SearchAction {
    /// The service is there.
    Done,
    /// Wait, and look again.
    Wait,
    /// Start the service, and look again; where it does not start, the search has failed.
    Start,
    /// Report why the bus could not be asked.
    GiveUp,
    /// Report that the service does not appear.
    Unavailable,
}

/// One step of the search.
pub open spec fn search_step(s: Search, e: SearchEvent) -> (Search, SearchAction) {
    match e {
        SearchEvent::Present => (s, SearchAction::Done),
        SearchEvent::Failed => (
            Search { attempts: (s.attempts + 1) as u8, ..s },
            if s.attempts + 1 >= GAMMARELAY_MAX_ATTEMPTS {
                SearchAction::GiveUp
            } else {
                SearchAction::Wait
            },
        ),
        SearchEvent::Absent => if s.attempts >= GAMMARELAY_MAX_ATTEMPTS {
            (s, SearchAction::Unavailable)
        } else if !s.spawned {
            (Search { attempts: 0, spawned: true }, SearchAction::Start)
        } else {
            (Search { attempts: (s.attempts + 1) as u8, ..s }, SearchAction::Wait)
        },
    }
}

impl Search {
    pub open spec fn wf(self) -> bool {
        self.attempts <= GAMMARELAY_MAX_ATTEMPTS
    }

    pub fn new() -> (r: Self)
        ensures
            r == (Search { attempts: 0, spawned: false }),
            r.wf(),
    {
        Search { attempts: 0, spawned: false }
    }

    /// Takes in what came of looking for the service.
    pub fn step(&mut self, e: SearchEvent) -> (r: SearchAction)
        requires
            old(self).wf(),
        ensures
            (*final(self), r) == search_step(*old(self), e),
            r is Wait || r is Start ==> final(self).wf(),
    {
        match e {
            SearchEvent::Present => SearchAction::Done,
            SearchEvent::Failed => {
                self.attempts = self.attempts + 1;
                if self.attempts >= GAMMARELAY_MAX_ATTEMPTS {
                    SearchAction::GiveUp
                } else {
                    SearchAction::Wait
                }
            },
            SearchEvent::Absent => {
                if self.attempts >= GAMMARELAY_MAX_ATTEMPTS {
                    SearchAction::Unavailable
                } else if !self.spawned {
                    self.spawned = true;
                    self.attempts = 0;
                    SearchAction::Start
                } else {
                    self.attempts = self.attempts + 1;
                    SearchAction::Wait
                }
            },
        }
    }
}

pub open spec fn goes_on(a: SearchAction) -> bool {
    a is Wait || a is Start
}

/// The actions of a search that meets the events in turn, up to and with the one that ends it.
pub open spec fn search_run(s: Search, events: Seq<SearchEvent>) -> Seq<SearchAction>
    decreases events.len(),
{
    if events.len() == 0 {
        seq![]
    } else {
        let (next, action) = search_step(s, events[0]);
        if goes_on(action) {
            seq![action] + search_run(next, events.skip(1))
        } else {
            seq![action]
        }
    }
}

/// How many steps a search can still go on for.
spec fn steps_left(s: Search) -> int {
    GAMMARELAY_MAX_ATTEMPTS - s.attempts + if s.spawned {
        0int
    } else {
        GAMMARELAY_MAX_ATTEMPTS + 1int
    }
}

proof fn lemma_search(s: Search, events: Seq<SearchEvent>)
    requires
        s.wf(),
    ensures
        search_run(s, events).len() <= steps_left(s) + 1,
        events.len() > 0 ==> search_run(s, events).len() > 0,
        search_run(s, events).len() < events.len() ==> !goes_on(search_run(s, events).last()),
        forall|i: int, j: int|
            0 <= i < j < search_run(s, events).len() ==> !(
            #[trigger] search_run(s, events)[i] is Start && #[trigger] search_run(s, events)[j] is Start),
        s.spawned ==> forall|i: int|
            0 <= i < search_run(s, events).len() ==> !(#[trigger] search_run(s, events)[i] is Start),
    decreases events.len(),
{
    if events.len() > 0 {
        let (next, action) = search_step(s, events[0]);
        if goes_on(action) {
            lemma_search(next, events.skip(1));
        }
    }
}

/// The search ends after a bounded number of looks, whatever it meets, and starts the service at
/// most once.
pub proof fn search_is_bounded(events: Seq<SearchEvent>)
    ensures
        ({
            let run = search_run(Search { attempts: 0, spawned: false }, events);
            &&& run.len() <= 2 * GAMMARELAY_MAX_ATTEMPTS + 2
            &&& events.len() > 2 * GAMMARELAY_MAX_ATTEMPTS + 2 ==> !goes_on(run.last())
            &&& forall|i: int, j: int|
                0 <= i < j < run.len() ==> !(#[trigger] run[i] is Start
                    && #[trigger] run[j] is Start)
        }),
{
    lemma_search(Search { attempts: 0, spawned: false }, events);
}

/// The character as it stands in the path of an object.
pub open spec fn path_char(c: char) -> char {
    if ('a' <= c && c <= 'z') || ('A' <= c && c <= 'Z') || ('0' <= c && c <= '9') {
        c
    } else {
        '_'
    }
}

/// The path of the object for an output.
pub open spec fn output_path(name: Seq<char>) -> Seq<char> {
    "/outputs/"@ + Seq::new(name.len(), |i: int| path_char(name[i]))
}

/// What came of opening the object of an output.
#[derive(Clone, Copy, Debug, PartialEq, Eq, Structural)]
pub enum ProxyOutcome {
    Built,
    UnknownObject,
    NoOwner,
    Failed,
}

/// Where a property is set.
#[derive(Clone, Copy, Debug, PartialEq, Eq, Structural)]
pub enum PropertyTarget {
    /// At the object of the output.
    Output,
    /// At the object for all outputs.
    Global,
    /// Nowhere: the service is not running.
    NotRunning,
    /// Nowhere: the object could not be opened.
    Failed,
}

pub open spec fn property_target(outcome: ProxyOutcome) -> PropertyTarget {
    match outcome {
        ProxyOutcome::Built => PropertyTarget::Output,
        ProxyOutcome::UnknownObject => PropertyTarget::Global,
        ProxyOutcome::NoOwner => PropertyTarget::NotRunning,
        ProxyOutcome::Failed => PropertyTarget::Failed,
    }
}

/// What is known of the output that is being asked.
#[derive(Clone, Copy, Debug)]
pub enum Stage {
    Open,
    Brightness,
    Gamma { brightness: Double },
    Temperature { brightness: Double, gamma: Double },
}

/// An answer to what was asked last.
#[derive(Clone, Copy, Debug)]
pub enum QueryEvent {
    Opened(ProxyOutcome),
    /// The property is a number of double precision.
    Number(Double),
    /// The property is a number of kelvin.
    Kelvin(u16),
    /// The property is of another type.
    OtherType,
    ReadFailed,
}

/// What is asked next.
#[derive(Clone, Copy, Debug)]
pub enum QueryAction {
    /// Open the object of the output at the place.
    Open(usize),
    ReadBrightness,
    ReadGamma,
    ReadTemperature,
    /// All outputs have been asked.
    Finished,
    /// The service is gone: nothing is known.
    Gone,
    /// A property is not of the type that it should be.
    WrongType,
}

/// The state of a query for the color settings of all outputs.
#[verifier::ext_equal]
pub struct QueryView {
    pub states: Map<Seq<char>, DisplayColorSettings>,
    pub at: int,
    pub stage: Stage,
}

/// Goes on to the output at the place.
pub open spec fn query_at(
    states: Map<Seq<char>, DisplayColorSettings>,
    count: int,
    at: int,
) -> (QueryView, QueryAction) {
    (
        QueryView { states, at, stage: Stage::Open },
        if at < count {
            QueryAction::Open(at as usize)
        } else {
            QueryAction::Finished
        },
    )
}

/// One step of the query: an output that is unknown to the service or cannot be read is passed
/// over; one that can be read gets its settings.
pub open spec fn query_step(q: QueryView, names: Seq<Seq<char>>, e: QueryEvent) -> (
    QueryView,
    QueryAction,
) {
    let pass = query_at(q.states, names.len() as int, q.at + 1);
    match (q.stage, e) {
        (Stage::Open, QueryEvent::Opened(ProxyOutcome::Built)) => (
            QueryView { stage: Stage::Brightness, ..q },
            QueryAction::ReadBrightness,
        ),
        (Stage::Open, QueryEvent::Opened(ProxyOutcome::NoOwner)) => (q, QueryAction::Gone),
        (Stage::Open, QueryEvent::Opened(_)) => pass,
        (Stage::Open, _) => (q, QueryAction::WrongType),
        (_, QueryEvent::ReadFailed) => pass,
        (Stage::Brightness, QueryEvent::Number(brightness)) => (
            QueryView { stage: Stage::Gamma { brightness }, ..q },
            QueryAction::ReadGamma,
        ),
        (Stage::Gamma { brightness }, QueryEvent::Number(gamma)) => (
            QueryView { stage: Stage::Temperature { brightness, gamma }, ..q },
            QueryAction::ReadTemperature,
        ),
        (Stage::Temperature { brightness, gamma }, QueryEvent::Kelvin(t)) => query_at(
            q.states.insert(
                names[q.at],
                DisplayColorSettings {
                    brightness: Some(float::narrowed(brightness)),
                    gamma: Some(float::narrowed(gamma)),
                    temperature: Some(t),
                },
            ),
            names.len() as int,
            q.at + 1,
        ),
        _ => (q, QueryAction::WrongType),
    }
}

/// A query for the color settings of all outputs.
pub struct ColorQuery {
    states: ByName<DisplayColorSettings>,
    at: usize,
    stage: Stage,
}

impl View for ColorQuery {
    type V = QueryView;

    closed spec fn view(&self) -> QueryView {
        QueryView { states: self.states@, at: self.at as int, stage: self.stage }
    }
}

/// The names of the outputs.
pub open spec fn names_of(outputs: Seq<DisplayOutput>) -> Seq<Seq<char>> {
    Seq::new(outputs.len(), |i: int| outputs[i].name@)
}

impl ColorQuery {
    /// A query that starts with the first output.
    pub fn new(outputs: &Vec<DisplayOutput>) -> (r: (Self, QueryAction))
        ensures
            (r.0@, r.1) == query_at(Map::empty(), outputs@.len() as int, 0),
    {
        let q = ColorQuery { states: ByName::new(), at: 0, stage: Stage::Open };
        if outputs.len() > 0 {
            (q, QueryAction::Open(0))
        } else {
            (q, QueryAction::Finished)
        }
    }

    fn pass(&mut self, outputs: &Vec<DisplayOutput>) -> (r: QueryAction)
        requires
            old(self)@.at < outputs@.len(),
        ensures
            (final(self)@, r) == query_at(
                old(self)@.states,
                outputs@.len() as int,
                old(self)@.at + 1,
            ),
    {
        let count = outputs.len();
        self.at = self.at + 1;
        self.stage = Stage::Open;
        if self.at < count {
            QueryAction::Open(self.at)
        } else {
            QueryAction::Finished
        }
    }

    /// Takes in an answer.
    pub fn step(&mut self, outputs: &Vec<DisplayOutput>, e: QueryEvent) -> (r: QueryAction)
        requires
            old(self)@.at < outputs@.len(),
        ensures
            (final(self)@, r) == query_step(old(self)@, names_of(outputs@), e),
    {
        match (self.stage, e) {
            (Stage::Open, QueryEvent::Opened(ProxyOutcome::Built)) => {
                self.stage = Stage::Brightness;
                QueryAction::ReadBrightness
            },
            (Stage::Open, QueryEvent::Opened(ProxyOutcome::NoOwner)) => QueryAction::Gone,
            (Stage::Open, QueryEvent::Opened(_)) => self.pass(outputs),
            (Stage::Open, _) => QueryAction::WrongType,
            (_, QueryEvent::ReadFailed) => self.pass(outputs),
            (Stage::Brightness, QueryEvent::Number(brightness)) => {
                self.stage = Stage::Gamma { brightness };
                QueryAction::ReadGamma
            },
            (Stage::Gamma { brightness }, QueryEvent::Number(gamma)) => {
                self.stage = Stage::Temperature { brightness, gamma };
                QueryAction::ReadTemperature
            },
            (Stage::Temperature { brightness, gamma }, QueryEvent::Kelvin(t)) => {
                let settings = DisplayColorSettings {
                    brightness: Some(brightness.narrowed()),
                    gamma: Some(gamma.narrowed()),
                    temperature: Some(t),
                };
                self.states.set(outputs[self.at].name.as_str(), settings);
                self.pass(outputs)
            },
            _ => QueryAction::WrongType,
        }
    }

    /// The settings that were found.
    pub fn states(&self) -> (r: &ByName<DisplayColorSettings>)
        ensures
            r@ == self@.states,
    {
        &self.states
    }
}

/// The output with the settings that were found for it; all of them can then be changed.
pub open spec fn with_settings(
    states: Map<Seq<char>, DisplayColorSettings>,
    o: OutputView,
) -> OutputView {
    if states.dom().contains(o.name) {
        OutputView { color: states[o.name], color_caps: models::caps(true), ..o }
    } else {
        o
    }
}

/// The modes of the first list that the second one offers too, by size and rate.
pub open spec fn common_modes(a: Seq<DisplayMode>, b: Seq<DisplayMode>) -> Seq<DisplayMode>
    decreases a.len(),
{
    if a.len() == 0 {
        seq![]
    } else if crate::xrandr::listed(b, a.last()) {
        common_modes(a.drop_last(), b).push(a.last())
    } else {
        common_modes(a.drop_last(), b)
    }
}

pub open spec fn area(m: DisplayMode) -> int {
    m.width * m.height
}

/// Whether the areas of the modes fit into 32 bits.
pub open spec fn areas_fit(modes: Seq<DisplayMode>) -> bool {
    forall|i: int| 0 <= i < modes.len() ==> area(#[trigger] modes[i]) <= u32::MAX
}

/// The mode with the greatest area, the last of them where there are more.
pub open spec fn largest_mode(modes: Seq<DisplayMode>) -> DisplayMode
    recommends
        modes.len() > 0,
    decreases modes.len(),
{
    if modes.len() <= 1 {
        modes[0]
    } else {
        let m = largest_mode(modes.drop_last());
        if area(modes.last()) >= area(m) {
            modes.last()
        } else {
            m
        }
    }
}

/// The mode in which an output is mirrored: `WxH`, and the rate without places.
pub open spec fn mirror_mode_text(m: DisplayMode) -> Seq<char> {
    models::size_text(m.width, m.height) + match m.refresh_hz {
        Some(hz) => "@"@ + float::fixed(hz, 0) + "Hz"@,
        None => seq![],
    }
}

/// The mode as it is set: `WxH`, and the rate with three places where it is positive.
pub open spec fn mode_arg(m: DisplayMode) -> Seq<char> {
    models::size_text(m.width, m.height) + match m.refresh_hz {
        Some(hz) => if float::less(float::single(float::ZERO), hz) {
            "@"@ + float::fixed(hz, 3) + "Hz"@
        } else {
            seq![]
        },
        None => seq![],
    }
}

/// The place of the first output with the name.
pub open spec fn place_of(names: Seq<Seq<char>>, name: Seq<char>) -> Option<int>
    decreases names.len(),
{
    if names.len() == 0 {
        None
    } else if place_of(names.drop_last(), name) is Some {
        place_of(names.drop_last(), name)
    } else if names.last() == name {
        Some(names.len() - 1)
    } else {
        None
    }
}

pub(crate) fn place_in(outputs: &Vec<DisplayOutput>, name: &str) -> (r: Option<usize>)
    ensures
        r is Some == place_of(names_of(outputs@), name@) is Some,
        r matches Some(i) ==> place_of(names_of(outputs@), name@) == Some(i as int) && i
            < outputs@.len(),
{
    let ghost names = names_of(outputs@);
    let mut i: usize = 0;
    while i < outputs.len()
        invariant
            i <= outputs@.len(),
            names == names_of(outputs@),
            place_of(names.take(i as int), name@) is None,
        decreases outputs.len() - i,
    {
        assert(names.take(i + 1).drop_last() == names.take(i as int));
        if text::same_str(outputs[i].name.as_str(), name) {
            proof {
                lemma_place_stays(names, i + 1, name@);
            }
            return Some(i);
        }
        i = i + 1;
    }
    assert(names.take(names.len() as int) == names);
    None
}

proof fn lemma_place_stays(names: Seq<Seq<char>>, k: int, name: Seq<char>)
    requires
        0 <= k <= names.len(),
        place_of(names.take(k), name) is Some,
    ensures
        place_of(names, name) == place_of(names.take(k), name),
    decreases names.len(),
{
    if k < names.len() {
        assert(names.drop_last().take(k) == names.take(k));
        lemma_place_stays(names.drop_last(), k, name);
    } else {
        assert(names.take(k) == names);
    }
}

fn common_modes_of(a: &Vec<DisplayMode>, b: &Vec<DisplayMode>) -> (r: Vec<DisplayMode>)
    ensures
        r@ == common_modes(a@, b@),
{
    let mut r: Vec<DisplayMode> = Vec::new();
    let mut i: usize = 0;
    while i < a.len()
        invariant
            i <= a@.len(),
            r@ == common_modes(a@.take(i as int), b@),
        decreases a.len() - i,
    {
        let m = a[i];
        let mut found = false;
        let mut j: usize = 0;
        while j < b.len() && !found
            invariant
                j <= b@.len(),
                found == exists|k: int| 0 <= k < j && models::same_mode(#[trigger] b@[k], m),
            decreases b.len() - j,
        {
            if b[j] == m {
                found = true;
            }
            j = j + 1;
        }
        if found {
            r.push(m);
        }
        i = i + 1;
        assert(a@.take(i as int).drop_last() == a@.take(i - 1));
    }
    assert(a@.take(a@.len() as int) == a@);
    r
}

/// Whether the areas of the modes fit into 32 bits.
pub fn have_small_areas(modes: &Vec<DisplayMode>) -> (r: bool)
    ensures
        r == areas_fit(modes@),
{
    let mut i: usize = 0;
    while i < modes.len()
        invariant
            i <= modes@.len(),
            forall|k: int| 0 <= k < i ==> area(#[trigger] modes@[k]) <= u32::MAX,
        decreases modes.len() - i,
    {
        let m = modes[i];
        assert(area(modes@[i as int]) == m.width * m.height);
        if m.width.checked_mul(m.height).is_none() {
            return false;
        }
        i = i + 1;
    }
    true
}

fn largest_of(modes: &Vec<DisplayMode>) -> (r: DisplayMode)
    requires
        modes@.len() > 0,
        areas_fit(modes@),
    ensures
        r == largest_mode(modes@),
{
    let mut best = modes[0];
    let mut i: usize = 1;
    assert(modes@.take(1)[0] == modes@[0]);
    while i < modes.len()
        invariant
            1 <= i <= modes@.len(),
            areas_fit(modes@),
            area(best) <= u32::MAX,
            best == largest_mode(modes@.take(i as int)),
        decreases modes.len() - i,
    {
        let m = modes[i];
        assert(area(modes@[i as int]) <= u32::MAX);
        if m.width * m.height >= best.width * best.height {
            best = m;
        }
        i = i + 1;
        assert(modes@.take(i as int).drop_last() == modes@.take(i - 1));
    }
    assert(modes@.take(modes@.len() as int) == modes@);
    best
}

fn mirror_mode_string(m: DisplayMode) -> (r: String)
    ensures
        r@ == mirror_mode_text(m),
{
    let mut r = models::size_string(m.width, m.height);
    if let Some(hz) = m.refresh_hz {
        r.append("@");
        let rate = hz.fixed(0);
        text::push_chars(&mut r, rate.as_slice());
        r.append("Hz");
    }
    assert(r@ =~= mirror_mode_text(m));
    r
}

fn mode_arg_string(m: DisplayMode) -> (r: String)
    ensures
        r@ == mode_arg(m),
{
    let mut r = models::size_string(m.width, m.height);
    if let Some(hz) = m.refresh_hz {
        if hz.is_positive() {
            r.append("@");
            let rate = hz.fixed(3);
            text::push_chars(&mut r, rate.as_slice());
            r.append("Hz");
        }
    }
    assert(r@ =~= mode_arg(m));
    r
}

/// The arguments that set a mode.
pub open spec fn mode_args(output: Seq<char>, mode: DisplayMode) -> Seq<Seq<char>> {
    seq!["--output"@, output, "--mode"@, mode_arg(mode)]
}

/// The arguments that set a scale.
pub open spec fn scale_args(output: Seq<char>, scale: Double) -> Seq<Seq<char>> {
    seq!["--output"@, output, "--scale"@, crate::shortest::double_notation(scale)]
}

/// The arguments that switch an output on or off.
pub open spec fn enabled_args(output: Seq<char>, enabled: bool) -> Seq<Seq<char>> {
    seq![
        "--output"@,
        output,
        if enabled {
            "--on"@
        } else {
            "--off"@
        },
    ]
}

/// The arguments that move an output.
pub open spec fn position_args(output: Seq<char>, x: i32, y: i32) -> Seq<Seq<char>> {
    seq![
        "--output"@,
        output,
        "--pos"@,
        decimal::signed(x as int) + ","@ + decimal::signed(y as int),
    ]
}

/// The arguments that turn an output.
pub open spec fn transform_args(output: Seq<char>, transform: Seq<char>) -> Seq<Seq<char>> {
    seq!["--output"@, output, "--transform"@, transform]
}

/// The arguments that switch adaptive sync on or off.
pub open spec fn sync_args(output: Seq<char>, enabled: bool) -> Seq<Seq<char>> {
    seq![
        "--output"@,
        output,
        "--adaptive-sync"@,
        if enabled {
            "enabled"@
        } else {
            "disabled"@
        },
    ]
}

/// The arguments that put an output into a mode at the origin.
pub open spec fn mirror_args(output: Seq<char>, mode: Seq<char>) -> Seq<Seq<char>> {
    seq!["--output"@, output, "--mode"@, mode, "--pos"@, "0,0"@]
}

fn mirror_args_of(output: &str, mode: &str) -> (r: Vec<String>)
    ensures
        spec::strings(r@) == mirror_args(output@, mode@),
{
    let mut r = command::args4("--output", output, "--mode", mode);
    command::push(&mut r, "--pos");
    command::push(&mut r, "0,0");
    r
}

/// The modes that two of the outputs have in common, or which of the two is missing. The target
/// is looked for first.
pub open spec fn modes_to_mirror(
    outputs: Seq<OutputView>,
    names: Seq<Seq<char>>,
    output: Seq<char>,
    target: Seq<char>,
) -> Result<Seq<DisplayMode>, BackendError> {
    match (place_of(names, target), place_of(names, output)) {
        (None, _) => Err(BackendError::TargetNotFound),
        (Some(_), None) => Err(BackendError::OutputNotFound),
        (Some(t), Some(s)) => {
            let common = common_modes(outputs[s].available_modes, outputs[t].available_modes);
            if common.len() == 0 {
                Err(BackendError::NoCommonMode)
            } else {
                Ok(common)
            }
        },
    }
}

impl WlrootsBackend {
    pub fn new() -> (r: Result<Self, BackendError>)
        ensures
            r is Ok,
    {
        Ok(WlrootsBackend)
    }

    /// The path of the object for an output: what is neither a letter nor a digit becomes `_`.
    pub fn gammarelay_output_path(name: &str) -> (r: String)
        ensures
            r@ == output_path(name@),
    {
        let s = text::chars_of(name);
        let mut r = String::from_str("/outputs/");
        let ghost start = r@;
        let ghost all = Seq::new(s@.len(), |i: int| path_char(s@[i]));
        let mut i: usize = 0;
        while i < s.len()
            invariant
                i <= s@.len(),
                all == Seq::new(s@.len(), |i: int| path_char(s@[i])),
                r@ == start + all.take(i as int),
            decreases s.len() - i,
        {
            let c = s[i];
            let kept = ('a' <= c && c <= 'z') || ('A' <= c && c <= 'Z') || ('0' <= c && c <= '9');
            r.push(
                if kept {
                    c
                } else {
                    '_'
                },
            );
            i = i + 1;
            assert(all.take(i as int) == all.take(i - 1).push(all[i - 1]));
            assert(r@ =~= start + all.take(i as int));
        }
        assert(all.take(all.len() as int) == all);
        r
    }

    /// Where a property is set, once the object of the output was opened or not.
    pub fn property_target(outcome: ProxyOutcome) -> (r: PropertyTarget)
        ensures
            r == property_target(outcome),
    {
        match outcome {
            ProxyOutcome::Built => PropertyTarget::Output,
            ProxyOutcome::UnknownObject => PropertyTarget::Global,
            ProxyOutcome::NoOwner => PropertyTarget::NotRunning,
            ProxyOutcome::Failed => PropertyTarget::Failed,
        }
    }

    /// The value of the property `Brightness` for a brightness.
    pub fn brightness_value(value: Single) -> (r: Double)
        ensures
            r == float::widened(float::clamped(value)),
    {
        value.clamped().widened()
    }

    /// The value of the property `Gamma` for a gamma.
    pub fn gamma_value(value: Single) -> (r: Double)
        ensures
            r == float::at_least_double(float::widened(value), float::double(float::TENTH_DOUBLE)),
    {
        value.widened().at_least(Double { bits: float::TENTH_DOUBLE })
    }

    /// Puts the settings that were found into the outputs; `None` where the service is gone.
    pub fn apply_color_states(
        outputs: Vec<DisplayOutput>,
        states: Option<&ByName<DisplayColorSettings>>,
    ) -> (r: Vec<DisplayOutput>)
        ensures
            r@.len() == outputs@.len(),
            forall|i: int|
                0 <= i < outputs@.len() ==> (#[trigger] r@[i])@ == match states {
                    Some(s) => with_settings(s@, outputs@[i]@),
                    None => outputs@[i]@,
                },
    {
        let states = match states {
            Some(s) => s,
            None => return outputs,
        };
        let ghost given = outputs@;
        let mut outputs = outputs;
        let mut i: usize = 0;
        while i < outputs.len()
            invariant
                i <= outputs@.len(),
                outputs@.len() == given.len(),
                forall|j: int|
                    0 <= j < i ==> (#[trigger] outputs@[j])@ == with_settings(states@, given[j]@),
                forall|j: int| i <= j < given.len() ==> #[trigger] outputs@[j] == given[j],
            decreases outputs.len() - i,
        {
            assert(outputs@[i as int] == given[i as int]);
            if let Some(s) = states.get(outputs[i].name.as_str()) {
                outputs[i].color = s;
                outputs[i].color_caps = DisplayColorCapabilities {
                    brightness: true,
                    gamma: true,
                    temperature: true,
                };
            }
            i = i + 1;
        }
        outputs
    }

    /// The arguments that set a mode.
    pub fn set_mode(output: &str, mode: DisplayMode) -> (r: Vec<String>)
        ensures
            spec::strings(r@) == mode_args(output@, mode),
    {
        let m = mode_arg_string(mode);
        command::args4("--output", output, "--mode", m.as_str())
    }

    /// The arguments that set a scale.
    pub fn set_scale(output: &str, scale: Double) -> (r: Vec<String>)
        ensures
            spec::strings(r@) == scale_args(output@, scale),
    {
        let number = scale.to_text();
        command::args4("--output", output, "--scale", number.as_str())
    }

    /// The arguments that switch an output on or off.
    pub fn set_enabled(output: &str, enabled: bool) -> (r: Vec<String>)
        ensures
            spec::strings(r@) == enabled_args(output@, enabled),
    {
        command::args3(
            "--output",
            output,
            if enabled {
                "--on"
            } else {
                "--off"
            },
        )
    }

    /// The arguments that set a position.
    pub fn set_position(output: &str, x: i32, y: i32) -> (r: Vec<String>)
        ensures
            spec::strings(r@) == position_args(output@, x, y),
    {
        let pos = command::pair(x, ",", y);
        command::args4("--output", output, "--pos", pos.as_str())
    }

    /// The arguments that place an output next to another one.
    pub fn set_position_relative(
        output: &str,
        relative_to: &str,
        direction: &str,
    ) -> (r: Result<Vec<String>, BackendError>)
        ensures
            match models::side_named(direction@) {
                Some(side) => r matches Ok(v) && spec::strings(v@) == x11::beside_args(
                    output@,
                    side,
                    relative_to@,
                ),
                None => r == Err::<Vec<String>, BackendError>(BackendError::InvalidDirection),
            },
    {
        match models::read_side(direction) {
            Some(side) => Ok(command::args4("--output", output, x11::flag_of(side), relative_to)),
            None => Err(BackendError::InvalidDirection),
        }
    }

    /// The arguments that set a transform.
    pub fn set_transform(output: &str, transform: &str) -> (r: Vec<String>)
        ensures
            spec::strings(r@) == transform_args(output@, transform@),
    {
        command::args4("--output", output, "--transform", transform)
    }

    /// The arguments that switch adaptive sync on or off.
    pub fn set_adaptive_sync(output: &str, enabled: bool) -> (r: Vec<String>)
        ensures
            spec::strings(r@) == sync_args(output@, enabled),
    {
        command::args4(
            "--output",
            output,
            "--adaptive-sync",
            if enabled {
                "enabled"
            } else {
                "disabled"
            },
        )
    }

    /// The modes that the two outputs have in common.
    pub fn modes_to_mirror(outputs: &Vec<DisplayOutput>, output: &str, target: &str) -> (r: Result<
        Vec<DisplayMode>,
        BackendError,
    >)
        ensures
            match modes_to_mirror(
                models::views(outputs@),
                names_of(outputs@),
                output@,
                target@,
            ) {
                Ok(s) => r matches Ok(v) && v@ == s,
                Err(e) => r == Err::<Vec<DisplayMode>, BackendError>(e),
            },
    {
        let t = match place_in(outputs, target) {
            Some(t) => t,
            None => return Err(BackendError::TargetNotFound),
        };
        let s = match place_in(outputs, output) {
            Some(s) => s,
            None => return Err(BackendError::OutputNotFound),
        };
        let common = common_modes_of(&outputs[s].available_modes, &outputs[t].available_modes);
        if common.len() == 0 {
            return Err(BackendError::NoCommonMode);
        }
        Ok(common)
    }

    /// The two calls that mirror an output to a target: both go to the largest of the modes that
    /// they have in common, at the origin.
    pub fn set_mirror(common: &Vec<DisplayMode>, output: &str, target: &str) -> (r: (
        Vec<String>,
        Vec<String>,
    ))
        requires
            common@.len() > 0,
            areas_fit(common@),
        ensures
            ({
                let mode = mirror_mode_text(largest_mode(common@));
                &&& spec::strings(r.0@) == mirror_args(output@, mode)
                &&& spec::strings(r.1@) == mirror_args(target@, mode)
            }),
    {
        let best = largest_of(common);
        let mode = mirror_mode_string(best);
        (mirror_args_of(output, mode.as_str()), mirror_args_of(target, mode.as_str()))
    }
}

proof fn lemma_common(a: Seq<DisplayMode>, b: Seq<DisplayMode>, k: int)
    requires
        0 <= k < common_modes(a, b).len(),
    ensures
        a.contains(common_modes(a, b)[k]),
        crate::xrandr::listed(b, common_modes(a, b)[k]),
    decreases a.len(),
{
    let t = a.drop_last();
    assert(a[a.len() - 1] == a.last());
    if k < common_modes(t, b).len() {
        lemma_common(t, b, k);
        let i = choose|i: int| 0 <= i < t.len() && t[i] == common_modes(t, b)[k];
        assert(a[i] == common_modes(a, b)[k]);
    }
}

proof fn lemma_largest(modes: Seq<DisplayMode>)
    requires
        modes.len() > 0,
    ensures
        modes.contains(largest_mode(modes)),
        forall|i: int|
            0 <= i < modes.len() ==> area(#[trigger] modes[i]) <= area(largest_mode(modes)),
    decreases modes.len(),
{
    if modes.len() > 1 {
        let t = modes.drop_last();
        lemma_largest(t);
        assert(modes[modes.len() - 1] == modes.last());
        let k = choose|k: int| 0 <= k < t.len() && t[k] == largest_mode(t);
        assert(modes[k] == largest_mode(t));
        assert forall|i: int| 0 <= i < modes.len() implies area(#[trigger] modes[i]) <= area(
            largest_mode(modes),
        ) by {
            if i < t.len() {
                assert(area(t[i]) <= area(largest_mode(t)));
            }
        }
    }
}

/// The mode in which an output is mirrored is one that it offers, that the target offers too,
/// and that is at least as large as any other such mode.
pub proof fn mirror_mode_suits_both(a: Seq<DisplayMode>, b: Seq<DisplayMode>, k: int)
    requires
        0 <= k < common_modes(a, b).len(),
    ensures
        a.contains(largest_mode(common_modes(a, b))),
        crate::xrandr::listed(b, largest_mode(common_modes(a, b))),
        area(common_modes(a, b)[k]) <= area(largest_mode(common_modes(a, b))),
{
    let common = common_modes(a, b);
    lemma_largest(common);
    let i = choose|i: int| 0 <= i < common.len() && common[i] == largest_mode(common);
    lemma_common(a, b, i);
}

/// Whether settings have been found for outputs alone, and all three of them for each.
pub open spec fn complete(states: Map<Seq<char>, DisplayColorSettings>, names: Seq<Seq<char>>) -> bool {
    forall|n: Seq<char>| #[trigger]
        states.dom().contains(n) ==> names.contains(n) && states[n].brightness is Some
            && states[n].gamma is Some && states[n].temperature is Some
}

/// A query finds settings for outputs alone, and either all settings of an output or none. It
/// moves on through the outputs in their order, and never back.
pub proof fn query_finds_all_or_nothing(q: QueryView, names: Seq<Seq<char>>, e: QueryEvent)
    requires
        0 <= q.at < names.len(),
        complete(q.states, names),
    ensures
        complete(query_step(q, names, e).0.states, names),
        q.at <= query_step(q, names, e).0.at <= q.at + 1,
        query_step(q, names, e).1 is Finished ==> query_step(q, names, e).0.at == names.len(),
{
    assert(names.contains(names[q.at]));
}

} // verus!
