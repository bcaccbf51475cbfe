//! Monitors as Mutter knows them, and how they are found in its state.
use vstd::prelude::*;

use crate::by_name::ByName;
use crate::float;
use crate::float::{Double, Single};
use crate::models;
use crate::models::DisplayMode;
use crate::search;
use crate::search::{first, first_item, seen};
use crate::sorting;
use crate::text;
use crate::text_spec as spec;
use crate::transforms;

pub mod laws;

verus! {

/// Properties of a monitor or of the whole state. Their values mean nothing here; each is
/// carried as a number that its owner gave it.
pub type Props = ByName<u64>;

/// What tells a monitor from others.
#[derive(Debug)]
pub struct MonitorSpec {
    pub connector: String,
    pub vendor: String,
    pub product: String,
    pub serial: String,
}

#[verifier::ext_equal]
pub struct SpecView {
    pub connector: Seq<char>,
    pub vendor: Seq<char>,
    pub product: Seq<char>,
    pub serial: Seq<char>,
}

impl View for MonitorSpec {
    type V = SpecView;

    open spec fn view(&self) -> SpecView {
        SpecView {
            connector: self.connector@,
            vendor: self.vendor@,
            product: self.product@,
            serial: self.serial@,
        }
    }
}

/// A mode that a monitor offers.
#[derive(Debug)]
pub struct MonitorMode {
    pub id: String,
    pub mode: DisplayMode,
    pub preferred: bool,
    pub current: bool,
    pub preferred_scale: Double,
    pub supported_scales: Vec<Double>,
}

#[verifier::ext_equal]
pub struct ModeView {
    pub id: Seq<char>,
    pub mode: DisplayMode,
    pub preferred: bool,
    pub current: bool,
    pub preferred_scale: Double,
    pub supported_scales: Seq<Double>,
}

impl View for MonitorMode {
    type V = ModeView;

    open spec fn view(&self) -> ModeView {
        ModeView {
            id: self.id@,
            mode: self.mode,
            preferred: self.preferred,
            current: self.current,
            preferred_scale: self.preferred_scale,
            supported_scales: self.supported_scales@,
        }
    }
}

/// A monitor with its modes.
#[derive(Debug)]
pub struct MonitorInfo {
    pub spec: MonitorSpec,
    pub modes: Vec<MonitorMode>,
}

#[verifier::ext_equal]
pub struct MonitorView {
    pub spec: SpecView,
    pub modes: Seq<ModeView>,
}

impl View for MonitorInfo {
    type V = MonitorView;

    open spec fn view(&self) -> MonitorView {
        MonitorView { spec: self.spec@, modes: seen(self.modes@) }
    }
}

/// A monitor in a logical monitor, and the mode that it is in there.
#[derive(Debug)]
pub struct MonitorEntry {
    pub spec: MonitorSpec,
    pub mode_id: String,
    pub props: Props,
}

#[verifier::ext_equal]
pub struct EntryView {
    pub spec: SpecView,
    pub mode_id: Seq<char>,
    pub props: Map<Seq<char>, u64>,
}

impl View for MonitorEntry {
    type V = EntryView;

    open spec fn view(&self) -> EntryView {
        EntryView { spec: self.spec@, mode_id: self.mode_id@, props: self.props@ }
    }
}

/// A part of the desktop, and the monitors that show it.
#[derive(Debug)]
pub struct LogicalMonitorInfo {
    pub x: i32,
    pub y: i32,
    pub scale: Double,
    pub transform: u32,
    pub primary: bool,
    pub props: Props,
    pub monitors: Vec<MonitorEntry>,
}

#[verifier::ext_equal]
pub struct LogicalView {
    pub x: i32,
    pub y: i32,
    pub scale: Double,
    pub transform: u32,
    pub primary: bool,
    pub props: Map<Seq<char>, u64>,
    pub monitors: Seq<EntryView>,
}

impl View for LogicalMonitorInfo {
    type V = LogicalView;

    open spec fn view(&self) -> LogicalView {
        LogicalView {
            x: self.x,
            y: self.y,
            scale: self.scale,
            transform: self.transform,
            primary: self.primary,
            props: self.props@,
            monitors: seen(self.monitors@),
        }
    }
}

impl MonitorSpec {
    pub fn same(&self, other: &MonitorSpec) -> (r: bool)
        ensures
            r == (self@ == other@),
    {
        let r = text::same_str(self.connector.as_str(), other.connector.as_str())
            && text::same_str(self.vendor.as_str(), other.vendor.as_str()) && text::same_str(
            self.product.as_str(),
            other.product.as_str(),
        ) && text::same_str(self.serial.as_str(), other.serial.as_str());
        assert(r ==> self@ =~= other@);
        r
    }

    pub fn copied(&self) -> (r: Self)
        ensures
            r@ == self@,
    {
        MonitorSpec {
            connector: self.connector.clone(),
            vendor: self.vendor.clone(),
            product: self.product.clone(),
            serial: self.serial.clone(),
        }
    }
}

/// The monitor at the connector.
pub open spec fn at_connector(connector: Seq<char>) -> spec_fn(MonitorView) -> bool {
    |m: MonitorView| m.spec.connector == connector
}

/// The monitor with the identity.
pub open spec fn with_spec(s: SpecView) -> spec_fn(MonitorView) -> bool {
    |m: MonitorView| m.spec == s
}

/// The mode with the identifier.
pub open spec fn with_id(id: Seq<char>) -> spec_fn(ModeView) -> bool {
    |m: ModeView| m.id == id
}

pub open spec fn is_current() -> spec_fn(ModeView) -> bool {
    |m: ModeView| m.current
}

pub open spec fn is_preferred() -> spec_fn(ModeView) -> bool {
    |m: ModeView| m.preferred
}

/// The entry for the connector.
pub open spec fn entry_at(connector: Seq<char>) -> spec_fn(EntryView) -> bool {
    |e: EntryView| e.spec.connector == connector
}

/// Whether a logical monitor shows on the connector.
pub open spec fn shows(l: LogicalView, connector: Seq<char>) -> bool {
    first(l.monitors, entry_at(connector)) is Some
}

/// The logical monitor that shows on the connector.
pub open spec fn shows_on(connector: Seq<char>) -> spec_fn(LogicalView) -> bool {
    |l: LogicalView| shows(l, connector)
}

/// The mode of the monitor that an entry names.
pub open spec fn entry_mode(monitors: Seq<MonitorView>, e: EntryView) -> Option<ModeView> {
    match first_item(monitors, with_spec(e.spec)) {
        Some(m) => first_item(m.modes, with_id(e.mode_id)),
        None => None,
    }
}

pub fn find_connector(monitors: &Vec<MonitorInfo>, connector: &str) -> (r: Option<usize>)
    ensures
        r is Some == first(seen(monitors@), at_connector(connector@)) is Some,
        r matches Some(i) ==> i < monitors@.len() && first(
            seen(monitors@),
            at_connector(connector@),
        ) == Some(i as int),
{
    let ghost p = at_connector(connector@);
    let ghost s = seen(monitors@);
    let mut i: usize = 0;
    while i < monitors.len()
        invariant
            i <= monitors@.len(),
            s == seen(monitors@),
            p == at_connector(connector@),
            search::first_from(s, p, 0) == search::first_from(s, p, i as int),
        decreases monitors.len() - i,
    {
        assert(s[i as int] == monitors@[i as int]@);
        if text::same_str(monitors[i].spec.connector.as_str(), connector) {
            return Some(i);
        }
        i = i + 1;
    }
    None
}

pub fn find_spec(monitors: &Vec<MonitorInfo>, spec: &MonitorSpec) -> (r: Option<usize>)
    ensures
        r is Some == first(seen(monitors@), with_spec(spec@)) is Some,
        r matches Some(i) ==> i < monitors@.len() && first(seen(monitors@), with_spec(spec@))
            == Some(i as int),
{
    let ghost p = with_spec(spec@);
    let ghost s = seen(monitors@);
    let mut i: usize = 0;
    while i < monitors.len()
        invariant
            i <= monitors@.len(),
            s == seen(monitors@),
            p == with_spec(spec@),
            search::first_from(s, p, 0) == search::first_from(s, p, i as int),
        decreases monitors.len() - i,
    {
        assert(s[i as int] == monitors@[i as int]@);
        if monitors[i].spec.same(spec) {
            return Some(i);
        }
        i = i + 1;
    }
    None
}

pub fn find_mode(modes: &Vec<MonitorMode>, id: &str) -> (r: Option<usize>)
    ensures
        r is Some == first(seen(modes@), with_id(id@)) is Some,
        r matches Some(i) ==> i < modes@.len() && first(seen(modes@), with_id(id@)) == Some(
            i as int,
        ),
{
    let ghost p = with_id(id@);
    let ghost s = seen(modes@);
    let mut i: usize = 0;
    while i < modes.len()
        invariant
            i <= modes@.len(),
            s == seen(modes@),
            p == with_id(id@),
            search::first_from(s, p, 0) == search::first_from(s, p, i as int),
        decreases modes.len() - i,
    {
        assert(s[i as int] == modes@[i as int]@);
        if text::same_str(modes[i].id.as_str(), id) {
            return Some(i);
        }
        i = i + 1;
    }
    None
}

pub fn find_current(modes: &Vec<MonitorMode>) -> (r: Option<usize>)
    ensures
        r is Some == first(seen(modes@), is_current()) is Some,
        r matches Some(i) ==> i < modes@.len() && first(seen(modes@), is_current()) == Some(
            i as int,
        ),
{
    let ghost p = is_current();
    let ghost s = seen(modes@);
    let mut i: usize = 0;
    while i < modes.len()
        invariant
            i <= modes@.len(),
            s == seen(modes@),
            p == is_current(),
            search::first_from(s, p, 0) == search::first_from(s, p, i as int),
        decreases modes.len() - i,
    {
        assert(s[i as int] == modes@[i as int]@);
        if modes[i].current {
            return Some(i);
        }
        i = i + 1;
    }
    None
}

pub fn find_preferred(modes: &Vec<MonitorMode>) -> (r: Option<usize>)
    ensures
        r is Some == first(seen(modes@), is_preferred()) is Some,
        r matches Some(i) ==> i < modes@.len() && first(seen(modes@), is_preferred()) == Some(
            i as int,
        ),
{
    let ghost p = is_preferred();
    let ghost s = seen(modes@);
    let mut i: usize = 0;
    while i < modes.len()
        invariant
            i <= modes@.len(),
            s == seen(modes@),
            p == is_preferred(),
            search::first_from(s, p, 0) == search::first_from(s, p, i as int),
        decreases modes.len() - i,
    {
        assert(s[i as int] == modes@[i as int]@);
        if modes[i].preferred {
            return Some(i);
        }
        i = i + 1;
    }
    None
}

pub fn find_entry(entries: &Vec<MonitorEntry>, connector: &str) -> (r: Option<usize>)
    ensures
        r is Some == first(seen(entries@), entry_at(connector@)) is Some,
        r matches Some(i) ==> i < entries@.len() && first(seen(entries@), entry_at(connector@))
            == Some(i as int),
{
    let ghost p = entry_at(connector@);
    let ghost s = seen(entries@);
    let mut i: usize = 0;
    while i < entries.len()
        invariant
            i <= entries@.len(),
            s == seen(entries@),
            p == entry_at(connector@),
            search::first_from(s, p, 0) == search::first_from(s, p, i as int),
        decreases entries.len() - i,
    {
        assert(s[i as int] == entries@[i as int]@);
        if text::same_str(entries[i].spec.connector.as_str(), connector) {
            return Some(i);
        }
        i = i + 1;
    }
    None
}

/// The place of the first logical monitor that shows on the connector.
pub fn find_output_logical(logicals: &Vec<LogicalMonitorInfo>, connector: &str) -> (r: Option<
    usize,
>)
    ensures
        r is Some == first(seen(logicals@), shows_on(connector@)) is Some,
        r matches Some(i) ==> i < logicals@.len() && first(seen(logicals@), shows_on(connector@))
            == Some(i as int),
{
    let ghost p = shows_on(connector@);
    let ghost s = seen(logicals@);
    let mut i: usize = 0;
    while i < logicals.len()
        invariant
            i <= logicals@.len(),
            s == seen(logicals@),
            p == shows_on(connector@),
            search::first_from(s, p, 0) == search::first_from(s, p, i as int),
        decreases logicals.len() - i,
    {
        assert(s[i as int] == logicals@[i as int]@);
        if find_entry(&logicals[i].monitors, connector).is_some() {
            return Some(i);
        }
        i = i + 1;
    }
    None
}

/// The mode that an entry names.
pub fn find_entry_mode<'a>(monitors: &'a Vec<MonitorInfo>, entry: &MonitorEntry) -> (r: Option<
    &'a MonitorMode,
>)
    ensures
        r is Some == entry_mode(seen(monitors@), entry@) is Some,
        r matches Some(m) ==> entry_mode(seen(monitors@), entry@) == Some(m@),
{
    match find_spec(monitors, &entry.spec) {
        Some(i) => {
            assert(seen(monitors@)[i as int] == monitors@[i as int]@);
            match find_mode(&monitors[i].modes, entry.mode_id.as_str()) {
                Some(k) => Some(&monitors[i].modes[k]),
                None => None,
            }
        },
        None => None,
    }
}

/// The number that Mutter gives a transform.
pub open spec fn mutter_transform(transform: Seq<char>) -> Option<u32> {
    if transform == "normal"@ || transform == "0"@ {
        Some(0)
    } else if transform == "90"@ {
        Some(1)
    } else if transform == "180"@ {
        Some(2)
    } else if transform == "270"@ {
        Some(3)
    } else if transform == "flipped"@ {
        Some(4)
    } else if transform == "flipped-90"@ {
        Some(5)
    } else if transform == "flipped-180"@ {
        Some(6)
    } else if transform == "flipped-270"@ {
        Some(7)
    } else {
        None
    }
}

/// The number that Mutter gives a transform.
pub fn transform_to_mutter(transform: &str) -> (r: Option<u32>)
    ensures
        r == mutter_transform(transform@),
{
    let all = text::chars_of(transform);
    let t = all.as_slice();
    if text::is(t, "normal") || text::is(t, "0") {
        Some(0)
    } else if text::is(t, "90") {
        Some(1)
    } else if text::is(t, "180") {
        Some(2)
    } else if text::is(t, "270") {
        Some(3)
    } else if text::is(t, "flipped") {
        Some(4)
    } else if text::is(t, "flipped-90") {
        Some(5)
    } else if text::is(t, "flipped-180") {
        Some(6)
    } else if text::is(t, "flipped-270") {
        Some(7)
    } else {
        None
    }
}

/// Whether a mode is the one that is asked for: the rate counts where one is asked for, and may
/// then differ by less than a half.
pub open spec fn mode_fits(requested: DisplayMode, candidate: DisplayMode) -> bool {
    &&& requested.width == candidate.width
    &&& requested.height == candidate.height
    &&& match (requested.refresh_hz, candidate.refresh_hz) {
        (None, _) => true,
        (Some(a), Some(b)) => float::closer(a, b, float::single(float::HALF)),
        (Some(_), None) => false,
    }
}

pub fn mode_matches(requested: DisplayMode, candidate: DisplayMode) -> (r: bool)
    ensures
        r == mode_fits(requested, candidate),
{
    requested.width == candidate.width && requested.height == candidate.height && match (
        requested.refresh_hz,
        candidate.refresh_hz,
    ) {
        (None, _) => true,
        (Some(a), Some(b)) => a.closer(b, Single { bits: float::HALF }),
        (Some(_), None) => false,
    }
}

/// Whether two scales count as the same.
pub open spec fn same_scale(a: Double, b: Double) -> bool {
    float::closer_double(a, b, float::double(float::HUNDREDTH_DOUBLE))
}

/// Whether a list of scales holds one that counts as the same.
pub open spec fn has_scale(list: Seq<Double>, x: Double) -> bool {
    exists|i: int| 0 <= i < list.len() && same_scale(#[trigger] list[i], x)
}

/// The scales of the first list that the second one has too.
pub open spec fn shared(a: Seq<Double>, b: Seq<Double>) -> Seq<Double>
    decreases a.len(),
{
    if a.len() == 0 {
        seq![]
    } else if has_scale(b, a.last()) {
        shared(a.drop_last(), b).push(a.last())
    } else {
        shared(a.drop_last(), b)
    }
}

/// The scales that are greater than zero.
pub open spec fn positive(s: Seq<Double>) -> Seq<Double>
    decreases s.len(),
{
    if s.len() == 0 {
        seq![]
    } else if float::less_double(float::double(float::ZERO_DOUBLE), s.last()) {
        positive(s.drop_last()).push(s.last())
    } else {
        positive(s.drop_last())
    }
}

/// The scales in order, without those that count as the same as one before them.
pub open spec fn tidy(s: Seq<Double>) -> Seq<Double> {
    sorting::deduped(
        sorting::sorted(s, |a: Double, b: Double| !float::less_double(b, a)),
        |a: Double, b: Double| same_scale(a, b),
    )
}

/// Whether all of the scales are numbers.
pub open spec fn all_numbers(s: Seq<Double>) -> bool {
    forall|i: int|
        0 <= i < s.len() ==> !crate::float_spec::is_nan(
            crate::float_spec::Format::Double,
            (#[trigger] s[i]).bits as nat,
        )
}

/// Whether all of the scales are numbers.
pub fn are_numbers(s: &Vec<Double>) -> (r: bool)
    ensures
        r == all_numbers(s@),
{
    let mut i: usize = 0;
    while i < s.len()
        invariant
            i <= s@.len(),
            all_numbers(s@.take(i as int)),
        decreases s.len() - i,
    {
        if s[i] != s[i] {
            return false;
        }
        i = i + 1;
        assert forall|k: int| 0 <= k < i implies !crate::float_spec::is_nan(
            crate::float_spec::Format::Double,
            (#[trigger] s@.take(i as int)[k]).bits as nat,
        ) by {
            if k < i - 1 {
                assert(s@.take(i - 1)[k] == s@.take(i as int)[k]);
            }
        }
    }
    assert(s@.take(s@.len() as int) == s@);
    true
}

pub fn same_scales(a: Double, b: Double) -> (r: bool)
    ensures
        r == same_scale(a, b),
{
    a.closer(b, Double { bits: float::HUNDREDTH_DOUBLE })
}

/// Whether the list holds a scale that counts as the same.
pub fn approx_contains(list: &Vec<Double>, value: Double) -> (r: bool)
    ensures
        r == has_scale(list@, value),
{
    let mut i: usize = 0;
    while i < list.len()
        invariant
            i <= list@.len(),
            forall|j: int| 0 <= j < i ==> !same_scale(#[trigger] list@[j], value),
        decreases list.len() - i,
    {
        if same_scales(list[i], value) {
            return true;
        }
        i = i + 1;
    }
    false
}

/// The scales of the first list that the second one has too.
pub fn approx_intersection(a: &Vec<Double>, b: &Vec<Double>) -> (r: Vec<Double>)
    ensures
        r@ == shared(a@, b@),
{
    let mut r: Vec<Double> = Vec::new();
    let mut i: usize = 0;
    while i < a.len()
        invariant
            i <= a@.len(),
            r@ == shared(a@.take(i as int), b@),
        decreases a.len() - i,
    {
        if approx_contains(b, a[i]) {
            r.push(a[i]);
        }
        i = i + 1;
        assert(a@.take(i as int).drop_last() == a@.take(i - 1));
    }
    assert(a@.take(a@.len() as int) == a@);
    r
}

pub fn positive_scales(s: &Vec<Double>) -> (r: Vec<Double>)
    ensures
        r@ == positive(s@),
{
    let mut r: Vec<Double> = Vec::new();
    let mut i: usize = 0;
    while i < s.len()
        invariant
            i <= s@.len(),
            r@ == positive(s@.take(i as int)),
        decreases s.len() - i,
    {
        if s[i].is_positive() {
            r.push(s[i]);
        }
        i = i + 1;
        assert(s@.take(i as int).drop_last() == s@.take(i - 1));
    }
    assert(s@.take(s@.len() as int) == s@);
    r
}

pub fn copied_scales(s: &Vec<Double>) -> (r: Vec<Double>)
    ensures
        r@ == s@,
{
    let mut r: Vec<Double> = Vec::new();
    let mut i: usize = 0;
    while i < s.len()
        invariant
            i <= s@.len(),
            r@ == s@.take(i as int),
        decreases s.len() - i,
    {
        r.push(s[i]);
        i = i + 1;
        assert(s@.take(i as int) =~= s@.take(i - 1).push(s@[i - 1]));
    }
    assert(s@.take(s@.len() as int) == s@);
    r
}

/// The scales in order, without those that count as the same as one before them.
pub fn tidied(s: Vec<Double>) -> (r: Vec<Double>)
    requires
        s@.len() > 1 ==> all_numbers(s@),
    ensures
        r@ == tidy(s@),
{
    let ghost given = s@;
    let ghost same = |a: Double, b: Double| same_scale(a, b);
    assert(sorting::keys(s@) =~= given);
    assert(sorting::order::<Double>() =~= |a: Double, b: Double| !float::less_double(b, a));
    let v = sorting::sort(s);
    let ghost all = v@;
    assert(sorting::keys(v@) =~= all);
    let mut r: Vec<Double> = Vec::new();
    let mut i: usize = 0;
    while i < v.len()
        invariant
            i <= v@.len(),
            all == v@,
            same == (|a: Double, b: Double| same_scale(a, b)),
            r@ == sorting::deduped(all.take(i as int), same),
        decreases v.len() - i,
    {
        assert(all.take(i + 1).drop_last() == all.take(i as int));
        let n = r.len();
        if n == 0 || !same_scales(v[i], r[n - 1]) {
            r.push(v[i]);
        }
        i = i + 1;
    }
    assert(all.take(all.len() as int) == all);
    r
}

/// The texts of the scales, with two places each.
pub open spec fn scale_texts(s: Seq<Double>) -> Seq<Seq<char>> {
    Seq::new(s.len(), |i: int| float::fixed_double(s[i], 2))
}

/// The scales as a list for a reader.
pub fn fmt_scales(scales: &Vec<Double>) -> (r: String)
    requires
        scales@.len() > 1 ==> all_numbers(scales@),
    ensures
        r@ == models::joined(scale_texts(tidy(scales@)), ", "@),
{
    let copy = copied_scales(scales);
    let s = tidied(copy);
    let mut parts: Vec<String> = Vec::new();
    let mut i: usize = 0;
    while i < s.len()
        invariant
            i <= s@.len(),
            spec::strings(parts@) == scale_texts(s@.take(i as int)),
        decreases s.len() - i,
    {
        let ghost before = parts@;
        let digits = s[i].fixed(2);
        parts.push(text::string_of(digits.as_slice()));
        i = i + 1;
        proof {
            let text = float::fixed_double(s@[i - 1], 2);
            assert(spec::strings(parts@) =~= spec::strings(before).push(text));
            assert(scale_texts(s@.take(i as int)) =~= scale_texts(s@.take(i - 1)).push(text));
        }
    }
    assert(s@.take(s@.len() as int) == s@);
    models::join(&parts, ", ")
}

/// The scales that a mode offers: its own, else the preferred one, as far as they are positive;
/// one where none is.
pub open spec fn mode_scales(m: ModeView) -> Seq<Double> {
    let s = positive(
        if m.supported_scales.len() == 0 {
            seq![m.preferred_scale]
        } else {
            m.supported_scales
        },
    );
    if s.len() == 0 {
        seq![float::double(float::ONE_DOUBLE)]
    } else {
        s
    }
}

/// The scales that the modes of all entries offer; `Some(None)` where there is no entry, and
/// `None` where the mode of one is not known.
pub open spec fn common_scales(monitors: Seq<MonitorView>, entries: Seq<EntryView>) -> Option<
    Option<Seq<Double>>,
>
    decreases entries.len(),
{
    if entries.len() == 0 {
        Some(None)
    } else {
        match (
            common_scales(monitors, entries.drop_last()),
            entry_mode(monitors, entries.last()),
        ) {
            (Some(None), Some(m)) => Some(Some(mode_scales(m))),
            (Some(Some(s)), Some(m)) => Some(Some(shared(s, mode_scales(m)))),
            _ => None,
        }
    }
}

/// The scales that a logical monitor can have, in order.
pub open spec fn supported_scales(monitors: Seq<MonitorView>, l: LogicalView) -> Option<
    Seq<Double>,
> {
    match common_scales(monitors, l.monitors) {
        Some(Some(s)) => if tidy(s).len() == 0 {
            None
        } else {
            Some(tidy(s))
        },
        _ => None,
    }
}

fn mode_scales_of(m: &MonitorMode) -> (r: Vec<Double>)
    ensures
        r@ == mode_scales(m@),
{
    let mut s = if m.supported_scales.len() == 0 {
        let one = vec![m.preferred_scale];
        assert(one@ =~= seq![m.preferred_scale]);
        positive_scales(&one)
    } else {
        positive_scales(&m.supported_scales)
    };
    if s.len() == 0 {
        s.push(Double { bits: float::ONE_DOUBLE });
    }
    assert(s@ =~= mode_scales(m@));
    s
}

proof fn lemma_positive_numbers(s: Seq<Double>)
    ensures
        all_numbers(positive(s)),
    decreases s.len(),
{
    if s.len() > 0 {
        lemma_positive_numbers(s.drop_last());
    }
}

proof fn lemma_shared_numbers(a: Seq<Double>, b: Seq<Double>)
    requires
        all_numbers(a),
    ensures
        all_numbers(shared(a, b)),
    decreases a.len(),
{
    if a.len() > 0 {
        assert(all_numbers(a.drop_last()));
        lemma_shared_numbers(a.drop_last(), b);
        assert(a.last() == a[a.len() - 1]);
    }
}

proof fn lemma_mode_scales_numbers(m: ModeView)
    ensures
        all_numbers(mode_scales(m)),
{
    lemma_positive_numbers(
        if m.supported_scales.len() == 0 {
            seq![m.preferred_scale]
        } else {
            m.supported_scales
        },
    );
    vstd::arithmetic::power2::lemma2_to64();
    vstd::arithmetic::power2::lemma2_to64_rest();
}

/// The scales that a logical monitor can have.
pub fn supported_scales_for_logical_monitor(
    monitors: &Vec<MonitorInfo>,
    lm: &LogicalMonitorInfo,
) -> (r: Option<Vec<Double>>)
    ensures
        match supported_scales(seen(monitors@), lm@) {
            Some(s) => r matches Some(v) && v@ == s,
            None => r is None,
        },
{
    let ghost ms = seen(monitors@);
    let ghost es = seen(lm.monitors@);
    let mut found: Option<Vec<Double>> = None;
    let mut i: usize = 0;
    while i < lm.monitors.len()
        invariant
            i <= lm.monitors@.len(),
            ms == seen(monitors@),
            es == seen(lm.monitors@),
            common_scales(ms, es.take(i as int)) == Some(
                match found {
                    Some(v) => Some(v@),
                    None => None,
                },
            ),
            found matches Some(v) ==> all_numbers(v@),
        decreases lm.monitors.len() - i,
    {
        proof {
            assert(es.take(i + 1).drop_last() == es.take(i as int));
            assert(es.take(i + 1).last() == lm.monitors@[i as int]@);
        }
        match find_entry_mode(monitors, &lm.monitors[i]) {
            Some(m) => {
                let scales = mode_scales_of(m);
                proof {
                    lemma_mode_scales_numbers(m@);
                }
                found =
                match found {
                    None => Some(scales),
                    Some(prev) => {
                        proof {
                            lemma_shared_numbers(prev@, scales@);
                        }
                        Some(approx_intersection(&prev, &scales))
                    },
                };
            },
            None => {
                proof {
                    lemma_missing(ms, es, i + 1);
                }
                return None;
            },
        }
        i = i + 1;
    }
    assert(es.take(es.len() as int) == es);
    match found {
        Some(s) => {
            let out = tidied(s);
            if out.len() == 0 {
                None
            } else {
                Some(out)
            }
        },
        None => None,
    }
}

proof fn lemma_missing(monitors: Seq<MonitorView>, entries: Seq<EntryView>, k: int)
    requires
        0 <= k <= entries.len(),
        common_scales(monitors, entries.take(k)) is None,
    ensures
        common_scales(monitors, entries) is None,
    decreases entries.len(),
{
    if k < entries.len() {
        assert(entries.drop_last().take(k) == entries.take(k));
        lemma_missing(monitors, entries.drop_last(), k);
    } else {
        assert(entries.take(k) == entries);
    }
}

/// The number that Mutter gives a transform leads back to the transform, and the other way round.
/// (`0` is another word for `normal`.)
pub proof fn transform_numbers_are_read_back(n: u32, transform: Seq<char>)
    ensures
        n < 8 ==> mutter_transform(transforms::numbered(n)) == Some(n),
        mutter_transform(transform) matches Some(k) ==> k < 8 && (transforms::numbered(k)
            == transform || transform == "0"@),
{
    transforms::names_differ();
    transforms::lemma_other_names();
    assert(transforms::numbered(0) == "normal"@);
    assert(transforms::numbered(1) == "90"@);
    assert(transforms::numbered(2) == "180"@);
    assert(transforms::numbered(3) == "270"@);
    assert(transforms::numbered(4) == "flipped"@);
    assert(transforms::numbered(5) == "flipped-90"@);
    assert(transforms::numbered(6) == "flipped-180"@);
    assert(transforms::numbered(7) == "flipped-270"@);
}

} // verus!
