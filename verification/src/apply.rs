//! What a request on the command line asks for, as steps in their order.
use vstd::prelude::*;

use crate::decimal;
use crate::float;
use crate::float::{Double, Single};
use crate::models;
use crate::models::DisplayMode;
use crate::text;
use crate::text_spec as spec;
use crate::transforms;

pub mod laws;

verus! {

/// Why a part of a request cannot be read.
#[derive(Clone, Debug)]
pub enum RequestError {
    /// The mode is not of the form `WxH`.
    InvalidMode,
    /// The position is not of the form `X,Y`.
    InvalidPosition,
    /// The width or the height is not a whole number without a sign that fits.
    NotASize(String),
    /// The coordinate is not a whole number that fits.
    NotACoordinate(String),
    /// The transform, as it was understood, is not known.
    UnsupportedTransform(String),
}

/// What a [`RequestError`] holds.
pub enum Fault {
    InvalidMode,
    InvalidPosition,
    NotASize(Seq<char>),
    NotACoordinate(Seq<char>),
    UnsupportedTransform(Seq<char>),
}

impl View for RequestError {
    type V = Fault;

    open spec fn view(&self) -> Fault {
        match self {
            RequestError::InvalidMode => Fault::InvalidMode,
            RequestError::InvalidPosition => Fault::InvalidPosition,
            RequestError::NotASize(s) => Fault::NotASize(s@),
            RequestError::NotACoordinate(s) => Fault::NotACoordinate(s@),
            RequestError::UnsupportedTransform(s) => Fault::UnsupportedTransform(s@),
        }
    }
}

/// The size in `WxH`; what follows a second `x` does not count. The width is read first.
pub open spec fn resolution(s: Seq<char>) -> Result<(u32, u32), Fault> {
    let first = spec::until(s, "x"@);
    match decimal::u32_value(first) {
        None => Err(Fault::NotASize(first)),
        Some(width) => match spec::second_piece(s, "x"@) {
            None => Err(Fault::InvalidMode),
            Some(second) => match decimal::u32_value(second) {
                None => Err(Fault::NotASize(second)),
                Some(height) => Ok((width, height)),
            },
        },
    }
}

/// The two sides of the comma in a position, or of the `x` where there is no comma.
pub open spec fn position_parts(s: Seq<char>) -> Option<(Seq<char>, Seq<char>)> {
    let t = spec::trim(s);
    if spec::split_once(t, ","@) is Some {
        spec::split_once(t, ","@)
    } else {
        spec::split_once(t, "x"@)
    }
}

/// The position in `X,Y` or `XxY`.
pub open spec fn position(s: Seq<char>) -> Result<(i32, i32), Fault> {
    match position_parts(s) {
        None => Err(Fault::InvalidPosition),
        Some(t) => match decimal::i32_value(spec::trim(t.0)) {
            None => Err(Fault::NotACoordinate(spec::trim(t.0))),
            Some(x) => match decimal::i32_value(spec::trim(t.1)) {
                None => Err(Fault::NotACoordinate(spec::trim(t.1))),
                Some(y) => Ok((x, y)),
            },
        },
    }
}

/// The mode in a request: a refresh rate counts only together with a size.
pub open spec fn requested_mode(mode: Option<Seq<char>>, refresh: Option<u32>) -> Result<
    Option<DisplayMode>,
    Fault,
> {
    match mode {
        None => Ok(None),
        Some(s) => match resolution(s) {
            Err(e) => Err(e),
            Ok((width, height)) => Ok(
                Some(
                    DisplayMode {
                        width,
                        height,
                        refresh_hz: match refresh {
                            Some(hz) => Some(float::of_whole(hz as nat)),
                            None => None,
                        },
                    },
                ),
            ),
        },
    }
}

/// The text of a transform as it is compared: trimmed, in small letters, without degree signs.
pub open spec fn folded(s: Seq<char>) -> Seq<char> {
    spec::without(spec::lower(spec::trim(s)), '\u{b0}')
}

/// The name of a transform that is given by one of its names.
pub open spec fn canonical(s: Seq<char>) -> Option<Seq<char>> {
    if s == "normal"@ || s == "0"@ {
        Some("normal"@)
    } else if s == "90"@ || s == "left"@ {
        Some("90"@)
    } else if s == "180"@ || s == "inverted"@ {
        Some("180"@)
    } else if s == "270"@ || s == "right"@ {
        Some("270"@)
    } else if s == "flipped"@ || s == "flip"@ {
        Some("flipped"@)
    } else if s == "flipped-90"@ || s == "flip-90"@ {
        Some("flipped-90"@)
    } else if s == "flipped-180"@ || s == "flip-180"@ {
        Some("flipped-180"@)
    } else if s == "flipped-270"@ || s == "flip-270"@ {
        Some("flipped-270"@)
    } else {
        None
    }
}

/// The size in `WxH`.
pub fn parse_resolution(input: &str) -> (r: Result<(u32, u32), RequestError>)
    ensures
        match resolution(input@) {
            Ok(size) => r matches Ok(v) && v == size,
            Err(e) => r matches Err(f) && f@ == e,
        },
{
    let s = text::chars_of(input);
    let first = text::until(s.as_slice(), "x");
    let width = match decimal::read_u32(first) {
        Some(n) => n,
        None => return Err(RequestError::NotASize(text::string_of(first))),
    };
    let second = match text::second_piece(s.as_slice(), "x") {
        Some(t) => t,
        None => return Err(RequestError::InvalidMode),
    };
    match decimal::read_u32(second) {
        Some(height) => Ok((width, height)),
        None => Err(RequestError::NotASize(text::string_of(second))),
    }
}

/// The position in `X,Y` or `XxY`.
pub fn parse_position(input: &str) -> (r: Result<(i32, i32), RequestError>)
    ensures
        match position(input@) {
            Ok(p) => r matches Ok(v) && v == p,
            Err(e) => r matches Err(f) && f@ == e,
        },
{
    let s = text::chars_of(input);
    let t = text::trim(s.as_slice());
    let (a, b) = match text::split_once(t, ",") {
        Some(p) => p,
        None => match text::split_once(t, "x") {
            Some(p) => p,
            None => return Err(RequestError::InvalidPosition),
        },
    };
    let a = text::trim(a);
    let b = text::trim(b);
    let x = match decimal::read_i32(a) {
        Some(n) => n,
        None => return Err(RequestError::NotACoordinate(text::string_of(a))),
    };
    match decimal::read_i32(b) {
        Some(y) => Ok((x, y)),
        None => Err(RequestError::NotACoordinate(text::string_of(b))),
    }
}

/// The mode in a request.
pub fn parse_mode_and_refresh(mode: Option<&str>, refresh: Option<u32>) -> (r: Result<
    Option<DisplayMode>,
    RequestError,
>)
    ensures
        match requested_mode(
            match mode {
                Some(s) => Some(s@),
                None => None,
            },
            refresh,
        ) {
            Ok(m) => r matches Ok(v) && v == m,
            Err(e) => r matches Err(f) && f@ == e,
        },
{
    match mode {
        Some(s) => match parse_resolution(s) {
            Ok((width, height)) => {
                let refresh_hz = match refresh {
                    Some(hz) => Some(Single::of_whole(hz)),
                    None => None,
                };
                Ok(Some(DisplayMode { width, height, refresh_hz }))
            },
            Err(e) => Err(e),
        },
        None => Ok(None),
    }
}

/// The name of the transform that the text stands for.
pub fn normalize_transform(input: &str) -> (r: Result<String, RequestError>)
    ensures
        match canonical(folded(input@)) {
            Some(name) => r matches Ok(s) && s@ == name,
            None => r matches Err(e) && e@ == Fault::UnsupportedTransform(folded(input@)),
        },
{
    let all = text::chars_of(input);
    let low = text::lower(text::trim(all.as_slice()));
    let plain = text::without(low.as_slice(), '\u{b0}');
    let s = plain.as_slice();
    let name = if text::is(s, "normal") || text::is(s, "0") {
        "normal"
    } else if text::is(s, "90") || text::is(s, "left") {
        "90"
    } else if text::is(s, "180") || text::is(s, "inverted") {
        "180"
    } else if text::is(s, "270") || text::is(s, "right") {
        "270"
    } else if text::is(s, "flipped") || text::is(s, "flip") {
        "flipped"
    } else if text::is(s, "flipped-90") || text::is(s, "flip-90") {
        "flipped-90"
    } else if text::is(s, "flipped-180") || text::is(s, "flip-180") {
        "flipped-180"
    } else if text::is(s, "flipped-270") || text::is(s, "flip-270") {
        "flipped-270"
    } else {
        return Err(RequestError::UnsupportedTransform(text::string_of(s)));
    };
    Ok(String::from_str(name))
}

/// What a request asks to change on an output.
pub struct Request {
    pub mode: Option<String>,
    pub refresh: Option<u32>,
    pub scale: Option<Double>,
    pub brightness: Option<Single>,
    pub gamma: Option<Single>,
    pub temperature: Option<u16>,
    pub position: Option<String>,
    pub orientation: Option<String>,
    pub mirror: Option<String>,
    pub enabled: Option<bool>,
}

/// One change of an output.
#[derive(Clone, Debug)]
pub enum Step {
    Enabled(bool),
    Mode(DisplayMode),
    Scale(Double),
    Brightness(Single),
    Gamma(Single),
    Temperature(u16),
    Position(i32, i32),
    Transform(String),
    Mirror(String),
    /// The request ends here: the part of it that comes next cannot be read.
    Fail(RequestError),
}

/// What a [`Step`] holds.
pub enum StepView {
    Enabled(bool),
    Mode(DisplayMode),
    Scale(Double),
    Brightness(Single),
    Gamma(Single),
    Temperature(u16),
    Position(i32, i32),
    Transform(Seq<char>),
    Mirror(Seq<char>),
    Fail(Fault),
}

impl View for Step {
    type V = StepView;

    open spec fn view(&self) -> StepView {
        match self {
            Step::Enabled(b) => StepView::Enabled(*b),
            Step::Mode(m) => StepView::Mode(*m),
            Step::Scale(x) => StepView::Scale(*x),
            Step::Brightness(x) => StepView::Brightness(*x),
            Step::Gamma(x) => StepView::Gamma(*x),
            Step::Temperature(t) => StepView::Temperature(*t),
            Step::Position(x, y) => StepView::Position(*x, *y),
            Step::Transform(s) => StepView::Transform(s@),
            Step::Mirror(s) => StepView::Mirror(s@),
            Step::Fail(e) => StepView::Fail(e@),
        }
    }
}

pub open spec fn steps(v: Seq<Step>) -> Seq<StepView> {
    Seq::new(v.len(), |i: int| v[i]@)
}

/// The changes that `execute_apply` makes, in their order: first whether the output is enabled,
/// then its mode and scale, then its color settings.
pub open spec fn changes(
    mode: Option<DisplayMode>,
    scale: Option<Double>,
    brightness: Option<Single>,
    gamma: Option<Single>,
    temperature: Option<u16>,
    enabled: Option<bool>,
) -> Seq<StepView> {
    (match enabled {
        Some(b) => seq![StepView::Enabled(b)],
        None => seq![],
    }) + (match mode {
        Some(m) => seq![StepView::Mode(m)],
        None => seq![],
    }) + (match scale {
        Some(x) => seq![StepView::Scale(x)],
        None => seq![],
    }) + (match brightness {
        Some(x) => seq![StepView::Brightness(x)],
        None => seq![],
    }) + (match gamma {
        Some(x) => seq![StepView::Gamma(x)],
        None => seq![],
    }) + (match temperature {
        Some(t) => seq![StepView::Temperature(t)],
        None => seq![],
    })
}

/// The last step of a request: mirroring.
pub open spec fn mirror_steps(r: Request) -> Seq<StepView> {
    match r.mirror {
        Some(target) => seq![StepView::Mirror(target@)],
        None => seq![],
    }
}

/// The steps from the transform on.
pub open spec fn transform_steps(r: Request) -> Seq<StepView> {
    match r.orientation {
        Some(s) => match canonical(folded(s@)) {
            Some(name) => seq![StepView::Transform(name)] + mirror_steps(r),
            None => seq![StepView::Fail(Fault::UnsupportedTransform(folded(s@)))],
        },
        None => mirror_steps(r),
    }
}

/// The steps from the position on.
pub open spec fn position_steps(r: Request) -> Seq<StepView> {
    match r.position {
        Some(s) => match position(s@) {
            Ok((x, y)) => seq![StepView::Position(x, y)] + transform_steps(r),
            Err(e) => seq![StepView::Fail(e)],
        },
        None => transform_steps(r),
    }
}

/// The steps of a request. The mode is read before anything is changed; the position and the
/// transform are read when their turn comes.
pub open spec fn plan(r: Request) -> Seq<StepView> {
    match requested_mode(spec::opt(r.mode), r.refresh) {
        Ok(mode) => changes(mode, r.scale, r.brightness, r.gamma, r.temperature, r.enabled)
            + position_steps(r),
        Err(e) => seq![StepView::Fail(e)],
    }
}

fn push_step(v: &mut Vec<Step>, s: Step)
    ensures
        steps(final(v)@) == steps(old(v)@).push(s@),
{
    let ghost before = v@;
    v.push(s);
    assert(steps(v@) =~= steps(before).push(s@));
}

/// The changes to an output, in the order in which they are made.
pub fn apply_changes(
    mode: Option<DisplayMode>,
    scale: Option<Double>,
    brightness: Option<Single>,
    gamma: Option<Single>,
    temperature: Option<u16>,
    enabled: Option<bool>,
) -> (r: Vec<Step>)
    ensures
        steps(r@) == changes(mode, scale, brightness, gamma, temperature, enabled),
{
    let mut v: Vec<Step> = Vec::new();
    assert(steps(v@) =~= seq![]);
    if let Some(b) = enabled {
        push_step(&mut v, Step::Enabled(b));
    }
    if let Some(m) = mode {
        push_step(&mut v, Step::Mode(m));
    }
    if let Some(x) = scale {
        push_step(&mut v, Step::Scale(x));
    }
    if let Some(x) = brightness {
        push_step(&mut v, Step::Brightness(x));
    }
    if let Some(x) = gamma {
        push_step(&mut v, Step::Gamma(x));
    }
    if let Some(t) = temperature {
        push_step(&mut v, Step::Temperature(t));
    }
    assert(steps(v@) =~= changes(mode, scale, brightness, gamma, temperature, enabled));
    v
}

impl Request {
    fn add_mirror(&self, v: &mut Vec<Step>)
        ensures
            steps(final(v)@) == steps(old(v)@) + mirror_steps(*self),
    {
        let ghost before = steps(v@);
        if let Some(target) = &self.mirror {
            push_step(v, Step::Mirror(target.clone()));
        }
        assert(steps(v@) =~= before + mirror_steps(*self));
    }

    fn add_transform(&self, v: &mut Vec<Step>)
        ensures
            steps(final(v)@) == steps(old(v)@) + transform_steps(*self),
    {
        let ghost before = steps(v@);
        if let Some(s) = &self.orientation {
            match normalize_transform(s.as_str()) {
                Ok(name) => push_step(v, Step::Transform(name)),
                Err(e) => {
                    push_step(v, Step::Fail(e));
                    assert(steps(v@) =~= before + transform_steps(*self));
                    return ;
                },
            }
        }
        self.add_mirror(v);
        assert(steps(v@) =~= before + transform_steps(*self));
    }

    fn add_position(&self, v: &mut Vec<Step>)
        ensures
            steps(final(v)@) == steps(old(v)@) + position_steps(*self),
    {
        let ghost before = steps(v@);
        if let Some(s) = &self.position {
            match parse_position(s.as_str()) {
                Ok((x, y)) => push_step(v, Step::Position(x, y)),
                Err(e) => {
                    push_step(v, Step::Fail(e));
                    assert(steps(v@) =~= before + position_steps(*self));
                    return ;
                },
            }
        }
        self.add_transform(v);
        assert(steps(v@) =~= before + position_steps(*self));
    }

    /// The steps that carry the request out, in their order.
    pub fn plan(&self) -> (r: Vec<Step>)
        ensures
            steps(r@) == plan(*self),
    {
        let text_of_mode = match &self.mode {
            Some(s) => Some(s.as_str()),
            None => None,
        };
        match parse_mode_and_refresh(text_of_mode, self.refresh) {
            Ok(mode) => {
                let mut v = apply_changes(
                    mode,
                    self.scale,
                    self.brightness,
                    self.gamma,
                    self.temperature,
                    self.enabled,
                );
                self.add_position(&mut v);
                v
            },
            Err(e) => {
                let mut v: Vec<Step> = Vec::new();
                assert(steps(v@) =~= seq![]);
                push_step(&mut v, Step::Fail(e));
                assert(steps(v@) =~= plan(*self));
                v
            },
        }
    }

    /// Starts to carry the request out.
    pub fn start(&self) -> (r: (Progress, PlanAction))
        ensures
            r.0@ == (ProgressView { steps: plan(*self), at: 0 }),
            r.1 == plan_action(r.0@),
    {
        Progress::new(self.plan())
    }
}

/// What comes next of a plan.
#[derive(Clone, Copy, Debug, PartialEq, Eq, Structural)]
pub enum PlanAction {
    /// Take the current step.
    Take,
    /// The request cannot be read any further, for the reason in the current step.
    Reject,
    /// All steps were taken.
    Done,
    /// The current step has failed.
    Failed,
}

/// How far a plan has been carried out.
pub struct Progress {
    steps: Vec<Step>,
    at: usize,
}

#[verifier::ext_equal]
pub struct ProgressView {
    pub steps: Seq<StepView>,
    pub at: int,
}

impl ProgressView {
    /// Whether there is a step to take.
    pub open spec fn running(self) -> bool {
        0 <= self.at < self.steps.len()
    }
}

impl View for Progress {
    type V = ProgressView;

    closed spec fn view(&self) -> ProgressView {
        ProgressView { steps: steps(self.steps@), at: self.at as int }
    }
}

/// What is to be done with the current step.
pub open spec fn plan_action(p: ProgressView) -> PlanAction {
    if p.at >= p.steps.len() {
        PlanAction::Done
    } else if p.steps[p.at] is Fail {
        PlanAction::Reject
    } else {
        PlanAction::Take
    }
}

/// What comes after the current step was taken: the first step that fails is the last one.
pub open spec fn plan_step(p: ProgressView, succeeded: bool) -> (ProgressView, PlanAction) {
    if succeeded {
        let q = ProgressView { at: p.at + 1, ..p };
        (q, plan_action(q))
    } else {
        (p, PlanAction::Failed)
    }
}

impl Progress {
    /// Starts with the first step.
    pub fn new(plan: Vec<Step>) -> (r: (Self, PlanAction))
        ensures
            r.0@ == (ProgressView { steps: steps(plan@), at: 0 }),
            r.1 == plan_action(r.0@),
    {
        let p = Progress { steps: plan, at: 0 };
        let action = p.action();
        (p, action)
    }

    fn action(&self) -> (r: PlanAction)
        ensures
            r == plan_action(self@),
    {
        if self.at >= self.steps.len() {
            PlanAction::Done
        } else {
            match &self.steps[self.at] {
                Step::Fail(_) => PlanAction::Reject,
                _ => PlanAction::Take,
            }
        }
    }

    /// The current step.
    pub fn current(&self) -> (r: &Step)
        requires
            self@.running(),
        ensures
            r@ == self@.steps[self@.at],
    {
        &self.steps[self.at]
    }

    /// Takes in whether the current step has succeeded.
    pub fn step(&mut self, succeeded: bool) -> (r: PlanAction)
        requires
            old(self)@.running(),
        ensures
            (final(self)@, r) == plan_step(old(self)@, succeeded),
            r is Take || r is Reject ==> final(self)@.running(),
    {
        let ghost before = self@;
        if succeeded {
            let count = self.steps.len();
            self.at = self.at + 1;
            assert(self@ =~= plan_step(before, succeeded).0);
            if self.at < count {
                self.action()
            } else {
                PlanAction::Done
            }
        } else {
            PlanAction::Failed
        }
    }
}

/// Where a plan ends, given what comes of the steps from the current one on.
pub open spec fn plan_run(p: ProgressView, outcomes: Seq<bool>) -> (ProgressView, PlanAction)
    decreases outcomes.len(),
{
    if !(plan_action(p) is Take) || outcomes.len() == 0 {
        (p, plan_action(p))
    } else if outcomes[0] {
        plan_run(plan_step(p, true).0, outcomes.drop_first())
    } else {
        plan_step(p, false)
    }
}

/// A plan ends at the first step that fails or cannot be read, after all steps before it have
/// succeeded, and is done only if every one of its steps has been read and has succeeded.
pub proof fn first_failure_ends_a_plan(p: ProgressView, outcomes: Seq<bool>)
    requires
        0 <= p.at <= p.steps.len(),
        outcomes.len() >= p.steps.len() - p.at,
    ensures
        ({
            let (q, action) = plan_run(p, outcomes);
            &&& q.steps == p.steps
            &&& p.at <= q.at <= p.steps.len()
            &&& forall|k: int| 0 <= k < q.at - p.at ==> #[trigger] outcomes[k]
            &&& forall|k: int| p.at <= k < q.at ==> !(#[trigger] p.steps[k] is Fail)
            &&& action is Done || action is Reject || action is Failed
            &&& action is Done <==> q.at == p.steps.len()
            &&& action is Reject ==> p.steps[q.at] is Fail
            &&& action is Failed ==> !outcomes[q.at - p.at] && !(p.steps[q.at] is Fail)
        }),
    decreases p.steps.len() - p.at,
{
    if plan_action(p) is Take && outcomes[0] {
        let q = plan_step(p, true).0;
        let rest = outcomes.drop_first();
        first_failure_ends_a_plan(q, rest);
        let end = plan_run(q, rest).0;
        assert forall|k: int| 0 <= k < end.at - p.at implies #[trigger] outcomes[k] by {
            if k > 0 {
                assert(rest[k - 1] == outcomes[k]);
            }
        }
        if end.at < p.steps.len() {
            assert(rest[end.at - q.at] == outcomes[end.at - p.at]);
        }
    }
}

/// A request that cannot be read in all its parts ends with the failure: no step comes after it.
pub proof fn plan_ends_with_its_failure(r: Request, k: int)
    requires
        0 <= k < plan(r).len(),
        plan(r)[k] is Fail,
    ensures
        k == plan(r).len() - 1,
{
    lemma_changes_do_not_fail(r);
    let first = match requested_mode(spec::opt(r.mode), r.refresh) {
        Ok(mode) => changes(mode, r.scale, r.brightness, r.gamma, r.temperature, r.enabled),
        Err(_) => seq![],
    };
    if k >= first.len() && requested_mode(spec::opt(r.mode), r.refresh) is Ok {
        assert(plan(r)[k] == position_steps(r)[k - first.len()]);
    }
}

proof fn lemma_changes_do_not_fail(r: Request)
    ensures
        requested_mode(spec::opt(r.mode), r.refresh) matches Ok(mode) ==> {
            let c = changes(mode, r.scale, r.brightness, r.gamma, r.temperature, r.enabled);
            forall|i: int| 0 <= i < c.len() ==> !(#[trigger] c[i] is Fail)
        },
{
}

/// A mode that cannot be read keeps the request from changing anything.
pub proof fn unreadable_mode_changes_nothing(r: Request)
    requires
        requested_mode(spec::opt(r.mode), r.refresh) is Err,
    ensures
        plan(r).len() == 1,
        plan(r)[0] is Fail,
{
}

proof fn lemma_decimal_chars(n: nat, c: char)
    requires
        !spec::is_digit(c),
    ensures
        decimal::decimal(n).len() > 0,
        !decimal::decimal(n).contains(c),
        !spec::is_space(decimal::decimal(n)[0]),
        !spec::is_space(decimal::decimal(n).last()),
{
    decimal::lemma_decimal(n);
    let s = decimal::decimal(n);
    assert(spec::is_digit(s[0]));
    assert(spec::is_digit(s[s.len() - 1]));
}

proof fn lemma_signed_chars(n: int, c: char)
    requires
        !spec::is_digit(c),
        c != '-',
    ensures
        decimal::signed(n).len() > 0,
        !decimal::signed(n).contains(c),
        !spec::is_space(decimal::signed(n)[0]),
        !spec::is_space(decimal::signed(n).last()),
{
    let s = decimal::signed(n);
    if n < 0 {
        let d = decimal::decimal((-n) as nat);
        lemma_decimal_chars((-n) as nat, c);
        assert(s.last() == d.last());
        if s.contains(c) {
            let i = choose|i: int| 0 <= i < s.len() && s[i] == c;
            assert(d[i - 1] == c);
            assert(d.contains(c));
        }
    } else {
        lemma_decimal_chars(n as nat, c);
    }
}

/// A position is read back as it is written.
pub proof fn position_is_read_back(x: i32, y: i32)
    ensures
        position(decimal::signed(x as int) + ","@ + decimal::signed(y as int)) == Ok::<
            (i32, i32),
            Fault,
        >((x, y)),
{
    let a = decimal::signed(x as int);
    let b = decimal::signed(y as int);
    reveal_strlit(",");
    assert(","@ =~= seq![',']);
    lemma_signed_chars(x as int, ',');
    lemma_signed_chars(y as int, ',');
    let s = a + ","@ + b;
    assert(s[0] == a[0]);
    assert(s.last() == b.last());
    spec::lemma_trim_solid(s);
    spec::lemma_trim_solid(a);
    spec::lemma_trim_solid(b);
    spec::lemma_split_at(a, ',', b);
    decimal::i32_read_after_write(x);
    decimal::i32_read_after_write(y);
}

/// A size is read back as it is written.
pub proof fn resolution_is_read_back(width: u32, height: u32)
    ensures
        resolution(models::size_text(width, height)) == Ok::<(u32, u32), Fault>((width, height)),
{
    let a = decimal::decimal(width as nat);
    let b = decimal::decimal(height as nat);
    reveal_strlit("x");
    assert("x"@ =~= seq!['x']);
    lemma_decimal_chars(width as nat, 'x');
    lemma_decimal_chars(height as nat, 'x');
    spec::lemma_split_at(a, 'x', b);
    spec::lemma_no_split(b, 'x');
    decimal::u32_read_after_write(width);
    decimal::u32_read_after_write(height);
}

/// Texts that folding leaves as they are.
pub open spec fn is_plain(s: Seq<char>) -> bool {
    forall|i: int|
        0 <= i < s.len() ==> !spec::is_space(#[trigger] s[i]) && s[i] != '\u{b0}' && !('A' <= s[i]
            && s[i] <= 'Z')
}

proof fn lemma_without_none(s: Seq<char>, c: char)
    requires
        forall|i: int| 0 <= i < s.len() ==> #[trigger] s[i] != c,
    ensures
        spec::without(s, c) == s,
    decreases s.len(),
{
    if s.len() > 0 {
        let rest = s.skip(1);
        assert forall|i: int| 0 <= i < rest.len() implies #[trigger] rest[i] != c by {
            assert(rest[i] == s[i + 1]);
        }
        lemma_without_none(rest, c);
        assert(seq![s[0]] + rest =~= s);
    }
}

proof fn lemma_plain_is_folded(s: Seq<char>)
    requires
        is_plain(s),
    ensures
        folded(s) == s,
{
    if s.len() > 0 {
        assert(!spec::is_space(s[0]) && !spec::is_space(s[s.len() - 1]));
    }
    spec::lemma_trim_solid(s);
    assert(spec::lower(s) =~= s);
    lemma_without_none(s, '\u{b0}');
}

proof fn lemma_names_are_plain(n: u32)
    ensures
        is_plain(transforms::numbered(n)),
{
    reveal_strlit("normal");
    reveal_strlit("90");
    reveal_strlit("180");
    reveal_strlit("270");
    reveal_strlit("flipped");
    reveal_strlit("flipped-90");
    reveal_strlit("flipped-180");
    reveal_strlit("flipped-270");
}

/// Whatever text a transform is given by, its name is one of the eight.
pub proof fn normalized_transforms_are_known(s: Seq<char>)
    ensures
        canonical(folded(s)) matches Some(t) ==> exists|n: u32|
            n < 8 && t == #[trigger] transforms::numbered(n),
{
    assert(transforms::numbered(0) == "normal"@);
    assert(transforms::numbered(1) == "90"@);
    assert(transforms::numbered(2) == "180"@);
    assert(transforms::numbered(3) == "270"@);
    assert(transforms::numbered(4) == "flipped"@);
    assert(transforms::numbered(5) == "flipped-90"@);
    assert(transforms::numbered(6) == "flipped-180"@);
    assert(transforms::numbered(7) == "flipped-270"@);
}

/// The name of a transform stands for itself, so that to normalize it again changes nothing.
pub proof fn normalized_transforms_stay(s: Seq<char>)
    ensures
        canonical(folded(s)) matches Some(t) ==> canonical(folded(t)) == Some(t),
{
    normalized_transforms_are_known(s);
    if let Some(t) = canonical(folded(s)) {
        let n = choose|n: u32| n < 8 && t == #[trigger] transforms::numbered(n);
        lemma_names_are_plain(n);
        lemma_plain_is_folded(t);
        transforms::names_differ();
        transforms::lemma_other_names();
    }
}

} // verus!
