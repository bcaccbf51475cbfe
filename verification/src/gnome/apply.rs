//! Asking Mutter to apply a layout. The form of the request differs between versions of Mutter,
//! so several are tried in turn.
use vstd::prelude::*;

use crate::by_name::ByName;
use crate::float::Double;
use crate::gnome::monitors::{EntryView, LogicalMonitorInfo, LogicalView, MonitorSpec, Props};
use crate::search::seen;
use crate::trial::{Trial, TrialAction};

pub mod laws;

verus! {

/// The form of a request, from the oldest to the newest.
#[derive(Clone, Copy, Debug, PartialEq, Eq, Structural)]
pub enum Version {
    V0,
    V1,
    V2,
}

/// The method that applies a layout for good.
pub const PERSISTENT: u32 = 2;

/// The method that applies a layout for the time being.
pub const TEMPORARY: u32 = 1;

/// One request to try: its form, its method, and the properties of the whole state.
#[derive(Debug)]
pub struct Attempt {
    pub version: Version,
    pub method: u32,
    pub props: Props,
}

#[verifier::ext_equal]
pub struct AttemptView {
    pub version: Version,
    pub method: u32,
    pub props: Map<Seq<char>, u64>,
}

impl View for Attempt {
    type V = AttemptView;

    open spec fn view(&self) -> AttemptView {
        AttemptView { version: self.version, method: self.method, props: self.props@ }
    }
}

/// The properties that are tried: all of them, all but the layout mode where it is among them,
/// and none.
pub open spec fn variants(props: Map<Seq<char>, u64>) -> Seq<Map<Seq<char>, u64>> {
    if props.dom().contains("layout-mode"@) {
        seq![props, props.remove("layout-mode"@), Map::empty()]
    } else {
        seq![props, Map::empty()]
    }
}

/// The requests of a form with a method.
pub open spec fn with_method(
    version: Version,
    method: u32,
    props: Seq<Map<Seq<char>, u64>>,
) -> Seq<AttemptView> {
    Seq::new(props.len(), |i: int| AttemptView { version, method, props: props[i] })
}

/// The requests of a form.
pub open spec fn of_version(version: Version, props: Seq<Map<Seq<char>, u64>>) -> Seq<AttemptView> {
    with_method(version, PERSISTENT, props) + with_method(version, TEMPORARY, props)
}

/// All requests that are tried, in their order: from the newest form to the oldest.
pub open spec fn all_attempts(props: Map<Seq<char>, u64>) -> Seq<AttemptView> {
    of_version(Version::V2, variants(props)) + of_version(Version::V1, variants(props))
        + of_version(Version::V0, variants(props))
}

fn push_method(out: &mut Vec<Attempt>, version: Version, method: u32, props: &Vec<Props>)
    ensures
        seen(final(out)@) == seen(old(out)@) + with_method(version, method, seen(props@)),
{
    let ghost start = seen(out@);
    let ghost all = with_method(version, method, seen(props@));
    let mut i: usize = 0;
    assert(start + all.take(0) =~= start);
    while i < props.len()
        invariant
            i <= props@.len(),
            all == with_method(version, method, seen(props@)),
            seen(out@) == start + all.take(i as int),
        decreases props.len() - i,
    {
        let ghost before = out@;
        let a = Attempt { version, method, props: props[i].copied() };
        out.push(a);
        i = i + 1;
        assert(seen(out@) =~= seen(before).push(a@));
        assert(a@ =~= all[i - 1]);
        assert(all.take(i as int) =~= all.take(i - 1).push(all[i - 1]));
        assert(seen(out@) =~= start + all.take(i as int));
    }
    assert(all.take(all.len() as int) == all);
}

/// The properties that are tried.
pub fn props_variants(props: &Props) -> (r: Vec<Props>)
    ensures
        seen(r@) == variants(props@),
{
    let mut r: Vec<Props> = Vec::new();
    r.push(props.copied());
    let mut without = props.copied();
    if without.remove("layout-mode") {
        r.push(without);
    }
    r.push(ByName::new());
    assert(seen(r@) =~= variants(props@));
    r
}

/// All requests that are tried, in their order.
pub fn attempts(props: &Props) -> (r: Vec<Attempt>)
    ensures
        seen(r@) == all_attempts(props@),
{
    let variants_of = props_variants(props);
    let mut r: Vec<Attempt> = Vec::new();
    assert(seen(r@) =~= seq![]);
    push_method(&mut r, Version::V2, PERSISTENT, &variants_of);
    push_method(&mut r, Version::V2, TEMPORARY, &variants_of);
    push_method(&mut r, Version::V1, PERSISTENT, &variants_of);
    push_method(&mut r, Version::V1, TEMPORARY, &variants_of);
    push_method(&mut r, Version::V0, PERSISTENT, &variants_of);
    push_method(&mut r, Version::V0, TEMPORARY, &variants_of);
    assert(seen(r@) =~= all_attempts(props@));
    r
}

/// A trial of all requests. The first one that Mutter accepts is the last one that is made;
/// where it accepts none, the trial fails with the last one.
pub fn apply_trial(props: &Props) -> (r: (Trial<Attempt>, TrialAction))
    ensures
        seen(r.0@.items) == all_attempts(props@),
        r.0@.at == 0,
        r.0@.running(),
        r.1 is Try,
{
    let r = Trial::new(attempts(props));
    proof {
        attempts_go_from_new_to_old(props@);
        assert(seen(r.0@.items).len() == r.0@.items.len());
    }
    r
}

/// A logical monitor in the newest form: the monitors without their modes.
#[derive(Debug)]
pub struct LogicalMonitorConfigV2 {
    pub x: i32,
    pub y: i32,
    pub scale: Double,
    pub transform: u32,
    pub primary: bool,
    pub monitors: Vec<MonitorSpec>,
    pub props: Props,
}

/// A monitor in the middle form.
#[derive(Debug)]
pub struct MonitorConfigV1 {
    pub spec: MonitorSpec,
    pub mode_id: String,
    pub props: Props,
}

/// A logical monitor in the middle form.
#[derive(Debug)]
pub struct LogicalMonitorConfigV1 {
    pub x: i32,
    pub y: i32,
    pub scale: Double,
    pub transform: u32,
    pub primary: bool,
    pub monitors: Vec<MonitorConfigV1>,
}

/// A monitor in the oldest form, by its connector alone.
#[derive(Debug)]
pub struct MonitorConfigV0 {
    pub connector: String,
    pub mode_id: String,
    pub props: Props,
}

/// A logical monitor in the oldest form.
#[derive(Debug)]
pub struct LogicalMonitorConfigV0 {
    pub x: i32,
    pub y: i32,
    pub scale: Double,
    pub transform: u32,
    pub primary: bool,
    pub monitors: Vec<MonitorConfigV0>,
}

/// What the entries of a logical monitor say of it in any form.
pub open spec fn same_frame(
    l: LogicalView,
    x: i32,
    y: i32,
    scale: Double,
    transform: u32,
    primary: bool,
) -> bool {
    l.x == x && l.y == y && l.scale == scale && l.transform == transform && l.primary == primary
}

pub open spec fn is_v2(l: LogicalView, c: LogicalMonitorConfigV2) -> bool {
    &&& same_frame(l, c.x, c.y, c.scale, c.transform, c.primary)
    &&& c.props@ == l.props
    &&& seen(c.monitors@) == Seq::new(l.monitors.len(), |i: int| l.monitors[i].spec)
}

pub open spec fn is_entry_v1(e: EntryView, c: MonitorConfigV1) -> bool {
    c.spec@ == e.spec && c.mode_id@ == e.mode_id && c.props@ == e.props
}

pub open spec fn is_v1(l: LogicalView, c: LogicalMonitorConfigV1) -> bool {
    &&& same_frame(l, c.x, c.y, c.scale, c.transform, c.primary)
    &&& c.monitors@.len() == l.monitors.len()
    &&& forall|i: int|
        0 <= i < l.monitors.len() ==> is_entry_v1(l.monitors[i], #[trigger] c.monitors@[i])
}

pub open spec fn is_entry_v0(e: EntryView, c: MonitorConfigV0) -> bool {
    c.connector@ == e.spec.connector && c.mode_id@ == e.mode_id && c.props@ == e.props
}

pub open spec fn is_v0(l: LogicalView, c: LogicalMonitorConfigV0) -> bool {
    &&& same_frame(l, c.x, c.y, c.scale, c.transform, c.primary)
    &&& c.monitors@.len() == l.monitors.len()
    &&& forall|i: int|
        0 <= i < l.monitors.len() ==> is_entry_v0(l.monitors[i], #[trigger] c.monitors@[i])
}

fn config_v2(l: &LogicalMonitorInfo) -> (r: LogicalMonitorConfigV2)
    ensures
        is_v2(l@, r),
{
    let mut specs: Vec<MonitorSpec> = Vec::new();
    let mut i: usize = 0;
    while i < l.monitors.len()
        invariant
            i <= l.monitors@.len(),
            specs@.len() == i,
            forall|k: int| 0 <= k < i ==> (#[trigger] specs@[k])@ == l.monitors@[k].spec@,
        decreases l.monitors.len() - i,
    {
        specs.push(l.monitors[i].spec.copied());
        i = i + 1;
    }
    assert(seen(specs@) =~= Seq::new(l@.monitors.len(), |i: int| l@.monitors[i].spec));
    LogicalMonitorConfigV2 {
        x: l.x,
        y: l.y,
        scale: l.scale,
        transform: l.transform,
        primary: l.primary,
        monitors: specs,
        props: l.props.copied(),
    }
}

fn config_v1(l: &LogicalMonitorInfo) -> (r: LogicalMonitorConfigV1)
    ensures
        is_v1(l@, r),
{
    let mut out: Vec<MonitorConfigV1> = Vec::new();
    let mut i: usize = 0;
    while i < l.monitors.len()
        invariant
            i <= l.monitors@.len(),
            out@.len() == i,
            forall|k: int| 0 <= k < i ==> is_entry_v1(l.monitors@[k]@, #[trigger] out@[k]),
        decreases l.monitors.len() - i,
    {
        let e = &l.monitors[i];
        out.push(
            MonitorConfigV1 {
                spec: e.spec.copied(),
                mode_id: e.mode_id.clone(),
                props: e.props.copied(),
            },
        );
        i = i + 1;
    }
    LogicalMonitorConfigV1 {
        x: l.x,
        y: l.y,
        scale: l.scale,
        transform: l.transform,
        primary: l.primary,
        monitors: out,
    }
}

fn config_v0(l: &LogicalMonitorInfo) -> (r: LogicalMonitorConfigV0)
    ensures
        is_v0(l@, r),
{
    let mut out: Vec<MonitorConfigV0> = Vec::new();
    let mut i: usize = 0;
    while i < l.monitors.len()
        invariant
            i <= l.monitors@.len(),
            out@.len() == i,
            forall|k: int| 0 <= k < i ==> is_entry_v0(l.monitors@[k]@, #[trigger] out@[k]),
        decreases l.monitors.len() - i,
    {
        let e = &l.monitors[i];
        out.push(
            MonitorConfigV0 {
                connector: e.spec.connector.clone(),
                mode_id: e.mode_id.clone(),
                props: e.props.copied(),
            },
        );
        i = i + 1;
    }
    LogicalMonitorConfigV0 {
        x: l.x,
        y: l.y,
        scale: l.scale,
        transform: l.transform,
        primary: l.primary,
        monitors: out,
    }
}

/// The logical monitors in the newest form.
pub fn build_apply_args_v2(logicals: &Vec<LogicalMonitorInfo>) -> (r: Vec<LogicalMonitorConfigV2>)
    ensures
        r@.len() == logicals@.len(),
        forall|i: int| 0 <= i < r@.len() ==> is_v2(logicals@[i]@, #[trigger] r@[i]),
{
    let mut r: Vec<LogicalMonitorConfigV2> = Vec::new();
    let mut i: usize = 0;
    while i < logicals.len()
        invariant
            i <= logicals@.len(),
            r@.len() == i,
            forall|k: int| 0 <= k < i ==> is_v2(logicals@[k]@, #[trigger] r@[k]),
        decreases logicals.len() - i,
    {
        let c = config_v2(&logicals[i]);
        r.push(c);
        i = i + 1;
    }
    r
}

/// The logical monitors in the middle form.
pub fn build_apply_args_v1(logicals: &Vec<LogicalMonitorInfo>) -> (r: Vec<LogicalMonitorConfigV1>)
    ensures
        r@.len() == logicals@.len(),
        forall|i: int| 0 <= i < r@.len() ==> is_v1(logicals@[i]@, #[trigger] r@[i]),
{
    let mut r: Vec<LogicalMonitorConfigV1> = Vec::new();
    let mut i: usize = 0;
    while i < logicals.len()
        invariant
            i <= logicals@.len(),
            r@.len() == i,
            forall|k: int| 0 <= k < i ==> is_v1(logicals@[k]@, #[trigger] r@[k]),
        decreases logicals.len() - i,
    {
        let c = config_v1(&logicals[i]);
        r.push(c);
        i = i + 1;
    }
    r
}

/// The logical monitors in the oldest form.
pub fn build_apply_args_v0(logicals: &Vec<LogicalMonitorInfo>) -> (r: Vec<LogicalMonitorConfigV0>)
    ensures
        r@.len() == logicals@.len(),
        forall|i: int| 0 <= i < r@.len() ==> is_v0(logicals@[i]@, #[trigger] r@[i]),
{
    let mut r: Vec<LogicalMonitorConfigV0> = Vec::new();
    let mut i: usize = 0;
    while i < logicals.len()
        invariant
            i <= logicals@.len(),
            r@.len() == i,
            forall|k: int| 0 <= k < i ==> is_v0(logicals@[k]@, #[trigger] r@[k]),
        decreases logicals.len() - i,
    {
        let c = config_v0(&logicals[i]);
        r.push(c);
        i = i + 1;
    }
    r
}

/// The number of a version, to tell newer ones from older ones.
pub open spec fn age(v: Version) -> int {
    match v {
        Version::V2 => 0,
        Version::V1 => 1,
        Version::V0 => 2,
    }
}

/// Newer forms are tried before older ones; the first request is to apply the layout for good,
/// with all properties; and the last one carries no properties.
pub proof fn attempts_go_from_new_to_old(props: Map<Seq<char>, u64>)
    ensures
        ({
            let s = all_attempts(props);
            &&& s.len() == 6 * variants(props).len()
            &&& s[0] == (AttemptView { version: Version::V2, method: PERSISTENT, props })
            &&& s.last() == (AttemptView {
                version: Version::V0,
                method: TEMPORARY,
                props: Map::empty(),
            })
            &&& forall|i: int, j: int|
                0 <= i < j < s.len() ==> age((#[trigger] s[i]).version) <= age(
                    (#[trigger] s[j]).version,
                )
        }),
{
}

} // verus!
