//! The brightness in the power settings of a GNOME session. There is no single way to read or to
//! set it that all versions have, so all ways that can be found are tried.
use vstd::prelude::*;

use crate::decimal;
use crate::float;
use crate::float::Double;
use crate::gnome::brightness::Level;
use crate::gnome::discovery::{DbusSetter, DbusSetterKind, SetterView};
use crate::gnome::introspect::{interfaces, introspect_interfaces};
use crate::models;
use crate::search::seen;
use crate::shortest::double_notation;
use crate::sorting;
use crate::text;
use crate::text_spec as spec;
use crate::trial::{
    first_accepted_is_the_last_tried, trial_run, trial_step, Trial, TrialAction, TrialView,
};

pub mod laws;

verus! {

// ---- names of interfaces ----

pub open spec fn is_name_char(c: char) -> bool {
    ('a' <= c && c <= 'z') || ('A' <= c && c <= 'Z') || ('0' <= c && c <= '9') || c == '_'
}

/// Whether the text is the name of an interface: from 3 to 255 letters, digits, underscores and
/// dots, with a dot among them; neither the first character nor one after a dot is a dot or a
/// digit.
pub open spec fn interface_name(s: Seq<char>) -> bool {
    &&& 3 <= s.len() <= 255
    &&& s.contains('.')
    &&& forall|i: int| 0 <= i < s.len() ==> #[trigger] s[i] == '.' || is_name_char(s[i])
    &&& forall|i: int|
        0 <= i < s.len() && (i == 0 || s[i - 1] == '.') ==> #[trigger] s[i] != '.'
            && !spec::is_digit(s[i])
}

/// `InterfaceName::try_from` of zbus succeeds exactly on the names of interfaces, as
/// [`interface_name`] states them.
#[verifier::external_body]
fn is_interface_name(name: &str) -> (r: bool)
    ensures
        r == interface_name(name@),
{
    zbus::names::InterfaceName::try_from(name).is_ok()
}

// ---- reading ----

/// The interfaces that may hold the brightness, in order, each once: those that the object has,
/// and those that are known.
pub open spec fn interfaces_to_ask(found: Seq<Seq<char>>) -> Seq<Seq<char>> {
    sorting::set_of_texts(
        found + seq![
            "org.gnome.SettingsDaemon.Power.Screen"@,
            "org.gnome.SettingsDaemon.Power"@,
            "org.gnome.SettingsDaemon.Power.Backlight"@,
        ],
    )
}

/// The interfaces that may hold the brightness.
pub fn iface_candidates(found: Vec<String>) -> (r: Vec<String>)
    ensures
        spec::strings(r@) == interfaces_to_ask(spec::strings(found@)),
{
    let ghost given = spec::strings(found@);
    let mut all = found;
    all.push(String::from_str("org.gnome.SettingsDaemon.Power.Screen"));
    all.push(String::from_str("org.gnome.SettingsDaemon.Power"));
    all.push(String::from_str("org.gnome.SettingsDaemon.Power.Backlight"));
    assert(spec::strings(all@) =~= given + seq![
        "org.gnome.SettingsDaemon.Power.Screen"@,
        "org.gnome.SettingsDaemon.Power"@,
        "org.gnome.SettingsDaemon.Power.Backlight"@,
    ]);
    sorting::sort_texts(all)
}

/// A percentage in its range.
pub open spec fn in_percent(n: int) -> i32 {
    if n < 0 {
        0
    } else if n > 100 {
        100
    } else {
        n as i32
    }
}

/// The percentage that was reported with a sign.
pub fn percentage_of_signed(n: i32) -> (r: i32)
    ensures
        r == in_percent(n as int),
{
    if n < 0 {
        0
    } else if n > 100 {
        100
    } else {
        n
    }
}

/// The percentage that was reported without a sign: what does not fit with one counts as less
/// than zero.
pub fn percentage_of_unsigned(n: u32) -> (r: i32)
    ensures
        r == unsigned_percent(n),
{
    if n > i32::MAX as u32 {
        0
    } else if n > 100 {
        100
    } else {
        n as i32
    }
}

/// The percentage that a number without a sign stands for.
pub open spec fn unsigned_percent(n: u32) -> i32 {
    if n > i32::MAX {
        0
    } else {
        in_percent(n as int)
    }
}

/// The objects that may hold the brightness, in the order in which they are asked.
pub open spec fn power_paths() -> Seq<Seq<char>> {
    seq!["/org/gnome/SettingsDaemon/Power"@, "/org/gnome/SettingsDaemon/Power/Screen"@]
}

/// The methods that may give the brightness, in the order in which they are called. Each is asked
/// for a number without a sign, and then for one with a sign.
pub open spec fn percentage_methods() -> Seq<Seq<char>> {
    seq!["GetPercentage"@, "GetBrightness"@]
}

/// What came of what was asked for last.
#[derive(Debug)]
pub enum PercentageEvent {
    /// How the object describes itself, where it does.
    Described(Option<String>),
    /// The interface is open.
    Opened,
    /// The interface cannot be opened.
    OpenFailed(String),
    /// The method gave a number without a sign.
    Unsigned(u32),
    /// The method gave a number with a sign.
    Signed(i32),
    /// The method gave no such number.
    CallFailed(String),
}

/// What is asked for next.
#[derive(Clone, Copy, Debug, PartialEq, Eq, Structural)]
pub enum PercentageAction {
    /// Have the current object describe itself.
    Describe,
    /// Open the current interface of the current object.
    Open,
    /// Ask the current method for a number without a sign.
    AskUnsigned,
    /// Ask the current method for a number with a sign.
    AskSigned,
    /// This is the percentage.
    Found(i32),
    /// Nothing gives a percentage.
    Exhausted,
}

/// Where the search for the percentage stands. `call` counts the ways to ask an interface: two
/// for each method.
#[verifier::ext_equal]
pub struct PercentageView {
    pub path: int,
    pub ifaces: Seq<Seq<char>>,
    pub iface: int,
    pub call: int,
    pub error: Option<Seq<char>>,
}

impl PercentageView {
    /// Whether there is an object to ask.
    pub open spec fn running(self) -> bool {
        0 <= self.path < power_paths().len()
    }

    /// Whether there is an interface to ask.
    pub open spec fn asking(self) -> bool {
        0 <= self.iface < self.ifaces.len() && 0 <= self.call < 2 * percentage_methods().len()
    }
}

/// The first error is the one that is kept.
pub open spec fn with_error(q: PercentageView, error: Seq<char>) -> PercentageView {
    PercentageView {
        error: match q.error {
            Some(e) => Some(e),
            None => Some(error),
        },
        ..q
    }
}

/// Goes on to the next object.
pub open spec fn to_next_path(q: PercentageView) -> (PercentageView, PercentageAction) {
    let after = PercentageView { path: q.path + 1, ifaces: seq![], iface: 0, call: 0, ..q };
    (
        after,
        if after.running() {
            PercentageAction::Describe
        } else {
            PercentageAction::Exhausted
        },
    )
}

/// Goes on to the next interface.
pub open spec fn to_next_iface(q: PercentageView) -> (PercentageView, PercentageAction) {
    if q.iface + 1 < q.ifaces.len() {
        (PercentageView { iface: q.iface + 1, call: 0, ..q }, PercentageAction::Open)
    } else {
        to_next_path(q)
    }
}

/// Goes on to the next way to ask.
pub open spec fn to_next_call(q: PercentageView) -> (PercentageView, PercentageAction) {
    if q.call + 1 < 2 * percentage_methods().len() {
        (
            PercentageView { call: q.call + 1, ..q },
            if (q.call + 1) % 2 == 0 {
                PercentageAction::AskUnsigned
            } else {
                PercentageAction::AskSigned
            },
        )
    } else {
        to_next_iface(q)
    }
}

/// What comes of an event. The first number that is given is the percentage.
pub open spec fn percentage_step(q: PercentageView, e: PercentageEvent) -> (PercentageView, PercentageAction) {
    match e {
        PercentageEvent::Described(xml) => (
            PercentageView {
                ifaces: interfaces_to_ask(
                    match xml {
                        Some(s) => interfaces(s@),
                        None => seq![],
                    },
                ),
                iface: 0,
                call: 0,
                ..q
            },
            PercentageAction::Open,
        ),
        PercentageEvent::Opened => (PercentageView { call: 0, ..q }, PercentageAction::AskUnsigned),
        PercentageEvent::OpenFailed(error) => to_next_iface(with_error(q, error@)),
        PercentageEvent::Unsigned(n) => (q, PercentageAction::Found(unsigned_percent(n))),
        PercentageEvent::Signed(n) => (q, PercentageAction::Found(in_percent(n as int))),
        PercentageEvent::CallFailed(error) => to_next_call(with_error(q, error@)),
    }
}

/// The search for the percentage in the power settings.
pub struct PercentageQuery {
    path: usize,
    ifaces: Vec<String>,
    iface: usize,
    call: usize,
    error: Option<String>,
}

impl View for PercentageQuery {
    type V = PercentageView;

    closed spec fn view(&self) -> PercentageView {
        PercentageView {
            path: self.path as int,
            ifaces: spec::strings(self.ifaces@),
            iface: self.iface as int,
            call: self.call as int,
            error: spec::opt(self.error),
        }
    }
}

impl PercentageQuery {
    /// Starts with the first object.
    pub fn new() -> (r: (Self, PercentageAction))
        ensures
            r.0@ == (PercentageView { path: 0, ifaces: seq![], iface: 0, call: 0, error: None }),
            r.0@.running(),
            r.1 is Describe,
    {
        let q = PercentageQuery { path: 0, ifaces: Vec::new(), iface: 0, call: 0, error: None };
        assert(q@.ifaces =~= seq![]);
        (q, PercentageAction::Describe)
    }

    fn remember(&mut self, error: String)
        ensures
            final(self)@ == with_error(old(self)@, error@),
    {
        if self.error.is_none() {
            self.error = Some(error);
        }
    }

    fn next_path(&mut self) -> (r: PercentageAction)
        requires
            old(self)@.running(),
        ensures
            (final(self)@, r) == to_next_path(old(self)@),
            r is Describe ==> final(self)@.running(),
    {
        let ghost before = self@;
        self.path = self.path + 1;
        self.ifaces = Vec::new();
        self.iface = 0;
        self.call = 0;
        assert(self@ =~= to_next_path(before).0);
        if self.path < 2 {
            PercentageAction::Describe
        } else {
            PercentageAction::Exhausted
        }
    }

    fn next_iface(&mut self) -> (r: PercentageAction)
        requires
            old(self)@.running(),
            old(self)@.asking(),
        ensures
            (final(self)@, r) == to_next_iface(old(self)@),
            r is Open ==> final(self)@.running() && final(self)@.asking(),
            r is Describe ==> final(self)@.running(),
    {
        let count = self.ifaces.len();
        if self.iface + 1 < count {
            self.iface = self.iface + 1;
            self.call = 0;
            PercentageAction::Open
        } else {
            self.next_path()
        }
    }

    /// Takes in what came of what was asked for last.
    pub fn step(&mut self, e: PercentageEvent) -> (r: PercentageAction)
        requires
            old(self)@.running(),
            !(e is Described) ==> old(self)@.asking(),
        ensures
            (final(self)@, r) == percentage_step(old(self)@, e),
            r is Describe ==> final(self)@.running(),
            r is Open || r is AskUnsigned || r is AskSigned ==> final(self)@.running()
                && final(self)@.asking(),
    {
        let ghost before = self@;
        match e {
            PercentageEvent::Described(xml) => {
                let found = match &xml {
                    Some(s) => introspect_interfaces(s.as_str()),
                    None => {
                        let none: Vec<String> = Vec::new();
                        assert(spec::strings(none@) =~= seq![]);
                        none
                    },
                };
                proof {
                    let all = spec::strings(found@);
                    lemma_known_interfaces_are_asked(all);
                }
                self.ifaces = iface_candidates(found);
                self.iface = 0;
                self.call = 0;
                assert(self@ =~= percentage_step(before, e).0);
                PercentageAction::Open
            },
            PercentageEvent::Opened => {
                self.call = 0;
                PercentageAction::AskUnsigned
            },
            PercentageEvent::OpenFailed(error) => {
                self.remember(error);
                self.next_iface()
            },
            PercentageEvent::Unsigned(n) => PercentageAction::Found(percentage_of_unsigned(n)),
            PercentageEvent::Signed(n) => PercentageAction::Found(percentage_of_signed(n)),
            PercentageEvent::CallFailed(error) => {
                self.remember(error);
                if self.call < 3 {
                    self.call = self.call + 1;
                    if self.call == 2 {
                        PercentageAction::AskUnsigned
                    } else {
                        PercentageAction::AskSigned
                    }
                } else {
                    self.next_iface()
                }
            },
        }
    }

    /// The object that is asked.
    pub fn path(&self) -> (r: &'static str)
        requires
            self@.running(),
        ensures
            r@ == power_paths()[self@.path],
    {
        if self.path == 0 {
            "/org/gnome/SettingsDaemon/Power"
        } else {
            "/org/gnome/SettingsDaemon/Power/Screen"
        }
    }

    /// The interface that is asked.
    pub fn iface(&self) -> (r: &str)
        requires
            self@.asking(),
        ensures
            r@ == self@.ifaces[self@.iface],
    {
        self.ifaces[self.iface].as_str()
    }

    /// The method that is called.
    pub fn method(&self) -> (r: &'static str)
        requires
            self@.asking(),
        ensures
            r@ == percentage_methods()[self@.call / 2],
    {
        if self.call < 2 {
            "GetPercentage"
        } else {
            "GetBrightness"
        }
    }

    /// The message for a percentage that was not found: the first error, where there was one.
    pub fn failure(self) -> (r: String)
        ensures
            r@ == match self@.error {
                Some(e) => e,
                None => "gsd-power GetPercentage failed"@,
            },
    {
        match self.error {
            Some(e) => e,
            None => String::from_str("gsd-power GetPercentage failed"),
        }
    }
}

proof fn lemma_known_interfaces_are_asked(found: Seq<Seq<char>>)
    ensures
        interfaces_to_ask(found).len() > 0,
        interfaces_to_ask(found).contains("org.gnome.SettingsDaemon.Power.Screen"@),
        interfaces_to_ask(found).contains("org.gnome.SettingsDaemon.Power"@),
        interfaces_to_ask(found).contains("org.gnome.SettingsDaemon.Power.Backlight"@),
        forall|k: int| 0 <= k < found.len() ==> interfaces_to_ask(found).contains(#[trigger] found[k]),
{
    let known = seq![
        "org.gnome.SettingsDaemon.Power.Screen"@,
        "org.gnome.SettingsDaemon.Power"@,
        "org.gnome.SettingsDaemon.Power.Backlight"@,
    ];
    let all = found + known;
    sorting::sorted_texts_are_distinct(all);
    assert(all[found.len() as int] == known[0]);
    assert(all[found.len() as int + 1] == known[1]);
    assert(all[found.len() as int + 2] == known[2]);
    assert forall|k: int| 0 <= k < found.len() implies interfaces_to_ask(found).contains(
        #[trigger] found[k],
    ) by {
        assert(all[k] == found[k]);
    }
}

/// Of every object, the interfaces that it has and the ones that are known are asked.
pub proof fn all_interfaces_are_asked(q: PercentageView, xml: String, k: int)
    requires
        0 <= k < interfaces(xml@).len(),
    ensures
        ({
            let (after, action) = percentage_step(q, PercentageEvent::Described(Some(xml)));
            &&& action is Open && after.iface == 0
            &&& after.ifaces.contains(interfaces(xml@)[k])
            &&& after.ifaces.contains("org.gnome.SettingsDaemon.Power.Screen"@)
            &&& after.ifaces.contains("org.gnome.SettingsDaemon.Power"@)
            &&& after.ifaces.contains("org.gnome.SettingsDaemon.Power.Backlight"@)
        }),
{
    lemma_known_interfaces_are_asked(interfaces(xml@));
}

/// The search goes on to the next way to ask, the next interface or the next object, never back;
/// it gives up only after the last object, and it finds a percentage, within its range, exactly
/// when a number is given. Where it fails, the first error is the one that is reported.
pub proof fn search_for_percentage_goes_forward(q: PercentageView, e: PercentageEvent)
    requires
        q.running(),
        !(e is Described) ==> q.asking(),
    ensures
        ({
            let (after, action) = percentage_step(q, e);
            &&& action is Found <==> e is Unsigned || e is Signed
            &&& action matches PercentageAction::Found(p) ==> 0 <= p <= 100 && after == q
            &&& action is Describe ==> after.path == q.path + 1
            &&& action is Exhausted ==> after.path == power_paths().len()
            &&& action is Open && !(e is Described) ==> after.path == q.path && after.ifaces
                == q.ifaces && after.iface == q.iface + 1
            &&& (action is AskUnsigned || action is AskSigned) && !(e is Opened) ==> after.path
                == q.path && after.ifaces == q.ifaces && after.iface == q.iface && after.call
                == q.call + 1
            &&& q.error is Some ==> after.error == q.error
            &&& e is OpenFailed || e is CallFailed ==> after.error is Some
        }),
{
}

// ---- setting ----

/// A percentage in one of the types that a setter can take.
#[derive(Clone, Copy, Debug)]
pub enum SetterValue {
    U8(u8),
    I16(i16),
    U16(u16),
    I32(i32),
    U32(u32),
    F64(Double),
}

/// A value to try, and how the try is called in messages.
#[derive(Debug)]
pub struct Try {
    pub value: SetterValue,
    pub label: String,
}

impl View for Try {
    type V = (SetterValue, Seq<char>);

    open spec fn view(&self) -> (SetterValue, Seq<char>) {
        (self.value, self.label@)
    }
}

/// How a number with places is called in messages.
pub open spec fn number_label(x: Double) -> Seq<char> {
    "d="@ + double_notation(x)
}

/// A percentage as an integer of the type; `None` for a type that is none.
pub open spec fn integer_value(ty: Seq<char>, p: nat) -> Option<SetterValue> {
    if ty == "y"@ {
        Some(SetterValue::U8(p as u8))
    } else if ty == "n"@ {
        Some(SetterValue::I16(p as i16))
    } else if ty == "q"@ {
        Some(SetterValue::U16(p as u16))
    } else if ty == "i"@ {
        Some(SetterValue::I32(p as i32))
    } else if ty == "u"@ {
        Some(SetterValue::U32(p as u32))
    } else {
        None
    }
}

/// How the call of a method is called in messages.
pub open spec fn method_label(s: SetterView, arg: Seq<char>) -> Seq<char> {
    s.iface + "::"@ + s.name + "("@ + arg + ") @ "@ + s.path
}

/// Whether a method is about a percentage, by its name.
pub open spec fn takes_percent(s: SetterView) -> bool {
    spec::contains(spec::lower(s.name), "percent"@)
}

/// The values that are tried with a method, by the type that it takes. A method that takes a
/// number with places may mean a percentage or a share of one: both are tried, the likelier one
/// first.
pub open spec fn method_tries(s: SetterView, p: nat) -> Option<Seq<(SetterValue, Seq<char>)>> {
    if s.arg_ty == "d"@ {
        let percent = (
            SetterValue::F64(float::whole_double(p)),
            method_label(s, number_label(float::whole_double(p))),
        );
        let share = (
            SetterValue::F64(float::hundredths(p)),
            method_label(s, number_label(float::hundredths(p))),
        );
        if takes_percent(s) {
            Some(seq![percent, share])
        } else {
            Some(seq![share, percent])
        }
    } else {
        match integer_value(s.arg_ty, p) {
            Some(v) => Some(seq![(v, method_label(s, s.arg_ty))]),
            None => None,
        }
    }
}

/// How the setting of a property is called in messages.
pub open spec fn property_label(s: SetterView) -> Seq<char> {
    "Properties.Set "@ + s.name + " via "@ + s.iface + " @ "@ + s.path
}

/// The value that a property is set to, by its type.
pub open spec fn property_value(s: SetterView, p: nat) -> Option<SetterValue> {
    if s.arg_ty == "d"@ {
        Some(SetterValue::F64(float::hundredths(p)))
    } else {
        integer_value(s.arg_ty, p)
    }
}

/// How many messages are kept, so that the report stays readable.
pub const MAX_ATTEMPTS: usize = 40;

/// The messages with one more, as long as there are not too many.
pub open spec fn noted(attempts: Seq<Seq<char>>, message: Seq<char>) -> Seq<Seq<char>> {
    if attempts.len() < MAX_ATTEMPTS {
        attempts.push(message)
    } else {
        attempts
    }
}

/// What came of what was asked for last.
#[derive(Debug)]
pub enum PowerEvent {
    /// The object of the setter is open.
    Opened,
    /// The object of the setter cannot be opened.
    OpenFailed(String),
    /// The access to the properties of the object cannot be prepared.
    BuilderFailed(String),
    /// The value was accepted.
    Called,
    /// The value was not accepted.
    CallFailed(String),
    /// The brightness has changed.
    TookEffect,
    /// The brightness has not changed.
    NoEffect,
}

/// What is asked for next.
#[derive(Clone, Copy, Debug, PartialEq, Eq, Structural)]
pub enum PowerAction {
    /// Open the object of the current setter.
    Open,
    /// Set the current value.
    Call,
    /// Find out whether the brightness has changed.
    Verify,
    /// The brightness is set.
    Done,
    /// All setters have been tried.
    Exhausted,
}

/// Where the setting of a brightness stands.
#[verifier::ext_equal]
pub struct PowerView {
    pub percent: nat,
    pub setters: Seq<SetterView>,
    pub at: int,
    pub tries: Seq<(SetterValue, Seq<char>)>,
    pub trial: int,
    pub attempts: Seq<Seq<char>>,
}

impl PowerView {
    /// Whether there is a setter to try.
    pub open spec fn running(self) -> bool {
        0 <= self.at < self.setters.len()
    }

    /// Whether there is a value to try.
    pub open spec fn calling(self) -> bool {
        0 <= self.trial < self.tries.len()
    }
}

/// With one more message.
pub open spec fn with_note(p: PowerView, message: Seq<char>) -> PowerView {
    PowerView { attempts: noted(p.attempts, message), ..p }
}

/// Goes on to the setter at the place.
pub open spec fn to_setter(p: PowerView, at: int) -> (PowerView, PowerAction) {
    (
        PowerView { at, tries: seq![], trial: 0, ..p },
        if at < p.setters.len() {
            PowerAction::Open
        } else {
            PowerAction::Exhausted
        },
    )
}

/// Goes on to the next value, or to the next setter.
pub open spec fn to_next_try(p: PowerView) -> (PowerView, PowerAction) {
    if p.trial + 1 < p.tries.len() {
        (PowerView { trial: p.trial + 1, ..p }, PowerAction::Call)
    } else {
        to_setter(p, p.at + 1)
    }
}

/// What is done once the object of a setter is open.
pub open spec fn opened(p: PowerView) -> (PowerView, PowerAction) {
    let s = p.setters[p.at];
    match s.kind {
        DbusSetterKind::Method => match method_tries(s, p.percent) {
            Some(tries) => (PowerView { tries, trial: 0, ..p }, PowerAction::Call),
            None => to_setter(
                with_note(p, method_label(s, s.arg_ty) + ": unsupported"@),
                p.at + 1,
            ),
        },
        DbusSetterKind::Property => if !interface_name(s.iface) {
            to_setter(
                with_note(
                    p,
                    "Properties.Set "@ + s.name + " @ "@ + s.path + ": invalid iface "@ + s.iface,
                ),
                p.at + 1,
            )
        } else {
            match property_value(s, p.percent) {
                Some(v) => (
                    PowerView { tries: seq![(v, property_label(s))], trial: 0, ..p },
                    PowerAction::Call,
                ),
                None => to_setter(
                    with_note(
                        p,
                        "Properties.Set "@ + s.name + " @ "@ + s.path + ": unsupported type "@
                            + s.arg_ty,
                    ),
                    p.at + 1,
                ),
            }
        },
    }
}

/// The message for an object that cannot be opened.
pub open spec fn open_message(s: SetterView, error: Seq<char>) -> Seq<char> {
    match s.kind {
        DbusSetterKind::Method => "proxy "@ + s.iface + " @ "@ + s.path + ": "@ + error,
        DbusSetterKind::Property => "PropertiesProxy build @ "@ + s.path + ": "@ + error,
    }
}

/// One step: what was found out, and what is asked for next.
pub open spec fn power_step(p: PowerView, e: PowerEvent) -> (PowerView, PowerAction) {
    let s = p.setters[p.at];
    match e {
        PowerEvent::Opened => opened(p),
        PowerEvent::OpenFailed(error) => to_setter(
            with_note(p, open_message(s, error@)),
            p.at + 1,
        ),
        PowerEvent::BuilderFailed(error) => to_setter(
            with_note(p, "PropertiesProxy builder @ "@ + s.path + ": "@ + error@),
            p.at + 1,
        ),
        PowerEvent::Called => (p, PowerAction::Verify),
        PowerEvent::CallFailed(error) => to_next_try(
            with_note(p, p.tries[p.trial].1 + ": "@ + error@),
        ),
        PowerEvent::TookEffect => (p, PowerAction::Done),
        PowerEvent::NoEffect => to_next_try(with_note(p, p.tries[p.trial].1 + ": no effect"@)),
    }
}

/// The setting of a brightness: the setters that are tried, and the messages so far.
#[derive(Debug)]
pub struct PowerSetting {
    percent: u8,
    setters: Vec<DbusSetter>,
    at: usize,
    tries: Vec<Try>,
    trial: usize,
    attempts: Vec<String>,
}

impl View for PowerSetting {
    type V = PowerView;

    closed spec fn view(&self) -> PowerView {
        PowerView {
            percent: self.percent as nat,
            setters: seen(self.setters@),
            at: self.at as int,
            tries: seen(self.tries@),
            trial: self.trial as int,
            attempts: spec::strings(self.attempts@),
        }
    }
}

fn integer_of(ty: &str, p: u8) -> (r: Option<SetterValue>)
    ensures
        r == integer_value(ty@, p as nat),
{
    if text::same_str(ty, "y") {
        Some(SetterValue::U8(p))
    } else if text::same_str(ty, "n") {
        Some(SetterValue::I16(p as i16))
    } else if text::same_str(ty, "q") {
        Some(SetterValue::U16(p as u16))
    } else if text::same_str(ty, "i") {
        Some(SetterValue::I32(p as i32))
    } else if text::same_str(ty, "u") {
        Some(SetterValue::U32(p as u32))
    } else {
        None
    }
}

fn method_label_of(s: &DbusSetter, arg: &str) -> (r: String)
    ensures
        r@ == method_label(s@, arg@),
{
    let mut r = s.iface.clone();
    r.append("::");
    r.append(s.name.as_str());
    r.append("(");
    r.append(arg);
    r.append(") @ ");
    r.append(s.path.as_str());
    r
}

fn property_label_of(s: &DbusSetter) -> (r: String)
    ensures
        r@ == property_label(s@),
{
    let mut r = String::from_str("Properties.Set ");
    r.append(s.name.as_str());
    r.append(" via ");
    r.append(s.iface.as_str());
    r.append(" @ ");
    r.append(s.path.as_str());
    r
}

fn number_try(s: &DbusSetter, x: Double) -> (r: Try)
    ensures
        r@ == (SetterValue::F64(x), method_label(s@, number_label(x))),
{
    let mut arg = String::from_str("d=");
    let number = x.to_text();
    arg.append(number.as_str());
    Try { value: SetterValue::F64(x), label: method_label_of(s, arg.as_str()) }
}

fn method_tries_of(s: &DbusSetter, p: u8) -> (r: Option<Vec<Try>>)
    ensures
        match method_tries(s@, p as nat) {
            Some(ts) => r matches Some(v) && seen(v@) == ts && ts.len() > 0,
            None => r is None,
        },
{
    let mut v: Vec<Try> = Vec::new();
    if text::same_str(s.arg_ty.as_str(), "d") {
        let percent = number_try(s, Double::of_whole(p as u32));
        let share = number_try(s, Double::hundredths(p as u32));
        let name = text::chars_of(s.name.as_str());
        let low = text::lower(name.as_slice());
        if text::contains(low.as_slice(), "percent") {
            v.push(percent);
            v.push(share);
            assert(seen(v@) =~= seq![percent@, share@]);
        } else {
            v.push(share);
            v.push(percent);
            assert(seen(v@) =~= seq![share@, percent@]);
        }
        return Some(v);
    }
    match integer_of(s.arg_ty.as_str(), p) {
        Some(value) => {
            let t = Try { value, label: method_label_of(s, s.arg_ty.as_str()) };
            v.push(t);
            assert(seen(v@) =~= seq![t@]);
            Some(v)
        },
        None => None,
    }
}

fn property_value_of(s: &DbusSetter, p: u8) -> (r: Option<SetterValue>)
    ensures
        r == property_value(s@, p as nat),
{
    if text::same_str(s.arg_ty.as_str(), "d") {
        Some(SetterValue::F64(Double::hundredths(p as u32)))
    } else {
        integer_of(s.arg_ty.as_str(), p)
    }
}

impl PowerSetting {
    /// The setting of a percentage with the setters, which are tried in their order.
    pub fn new(percent: i32, setters: Vec<DbusSetter>) -> (r: (Self, PowerAction))
        ensures
            (r.0@, r.1) == to_setter(
                PowerView {
                    percent: in_percent(percent as int) as nat,
                    setters: seen(setters@),
                    at: 0,
                    tries: seq![],
                    trial: 0,
                    attempts: seq![
                        "discovered "@ + decimal::decimal(setters@.len())
                            + " brightness setters in gsd-power"@,
                    ],
                },
                0,
            ),
    {
        let p = percentage_of_signed(percent) as u8;
        let mut first = String::from_str("discovered ");
        decimal::push(&mut first, setters.len() as u64);
        first.append(" brightness setters in gsd-power");
        let mut attempts: Vec<String> = Vec::new();
        attempts.push(first);
        let any = setters.len() > 0;
        let r = PowerSetting { percent: p, setters, at: 0, tries: Vec::new(), trial: 0, attempts };
        proof {
            assert(spec::strings(r.attempts@) =~= seq![first@]);
            assert(seen(r.tries@) =~= seq![]);
        }
        (
            r,
            if any {
                PowerAction::Open
            } else {
                PowerAction::Exhausted
            },
        )
    }

    fn note(&mut self, message: String)
        ensures
            final(self)@ == with_note(old(self)@, message@),
    {
        let ghost before = self@;
        if self.attempts.len() < MAX_ATTEMPTS {
            self.attempts.push(message);
            assert(self@.attempts =~= before.attempts.push(message@));
        }
        assert(self@ =~= with_note(before, message@));
    }

    fn next_setter(&mut self) -> (r: PowerAction)
        requires
            old(self)@.running(),
        ensures
            (final(self)@, r) == to_setter(old(self)@, old(self)@.at + 1),
    {
        let ghost before = self@;
        let count = self.setters.len();
        self.at = self.at + 1;
        self.tries = Vec::new();
        self.trial = 0;
        assert(self@.tries =~= seq![]);
        assert(self@ =~= to_setter(before, before.at + 1).0);
        if self.at < count {
            PowerAction::Open
        } else {
            PowerAction::Exhausted
        }
    }

    fn next_try(&mut self) -> (r: PowerAction)
        requires
            old(self)@.running(),
            old(self)@.calling(),
        ensures
            (final(self)@, r) == to_next_try(old(self)@),
    {
        let count = self.tries.len();
        if self.trial + 1 < count {
            self.trial = self.trial + 1;
            PowerAction::Call
        } else {
            self.next_setter()
        }
    }

    fn open(&mut self) -> (r: PowerAction)
        requires
            old(self)@.running(),
        ensures
            (final(self)@, r) == opened(old(self)@),
            r is Call ==> final(self)@.calling(),
    {
        let ghost before = self@;
        let at = self.at;
        let s = &self.setters[at];
        assert(s@ == before.setters[before.at]);
        match s.kind {
            DbusSetterKind::Method => match method_tries_of(s, self.percent) {
                Some(tries) => {
                    self.tries = tries;
                    self.trial = 0;
                    assert(self@ =~= opened(before).0);
                    PowerAction::Call
                },
                None => {
                    let mut message = method_label_of(s, s.arg_ty.as_str());
                    message.append(": unsupported");
                    self.note(message);
                    self.next_setter()
                },
            },
            DbusSetterKind::Property => {
                if !is_interface_name(s.iface.as_str()) {
                    let mut message = String::from_str("Properties.Set ");
                    message.append(s.name.as_str());
                    message.append(" @ ");
                    message.append(s.path.as_str());
                    message.append(": invalid iface ");
                    message.append(s.iface.as_str());
                    self.note(message);
                    return self.next_setter();
                }
                match property_value_of(s, self.percent) {
                    Some(value) => {
                        let t = Try { value, label: property_label_of(s) };
                        let mut tries: Vec<Try> = Vec::new();
                        tries.push(t);
                        assert(seen(tries@) =~= seq![t@]);
                        self.tries = tries;
                        self.trial = 0;
                        assert(self@ =~= opened(before).0);
                        PowerAction::Call
                    },
                    None => {
                        let mut message = String::from_str("Properties.Set ");
                        message.append(s.name.as_str());
                        message.append(" @ ");
                        message.append(s.path.as_str());
                        message.append(": unsupported type ");
                        message.append(s.arg_ty.as_str());
                        self.note(message);
                        self.next_setter()
                    },
                }
            },
        }
    }

    /// Takes in what came of what was asked for last.
    pub fn step(&mut self, e: PowerEvent) -> (r: PowerAction)
        requires
            old(self)@.running(),
            e is CallFailed || e is NoEffect ==> old(self)@.calling(),
        ensures
            (final(self)@, r) == power_step(old(self)@, e),
            r is Open ==> final(self)@.running(),
            r is Call ==> final(self)@.running() && final(self)@.calling(),
    {
        let at = self.at;
        assert(self.setters@[at as int]@ == self@.setters[self@.at]);
        match e {
            PowerEvent::Opened => self.open(),
            PowerEvent::OpenFailed(error) => {
                let s = &self.setters[at];
                let mut message = match s.kind {
                    DbusSetterKind::Method => {
                        let mut m = String::from_str("proxy ");
                        m.append(s.iface.as_str());
                        m.append(" @ ");
                        m
                    },
                    DbusSetterKind::Property => String::from_str("PropertiesProxy build @ "),
                };
                message.append(s.path.as_str());
                message.append(": ");
                message.append(error.as_str());
                self.note(message);
                self.next_setter()
            },
            PowerEvent::BuilderFailed(error) => {
                let s = &self.setters[at];
                let mut message = String::from_str("PropertiesProxy builder @ ");
                message.append(s.path.as_str());
                message.append(": ");
                message.append(error.as_str());
                self.note(message);
                self.next_setter()
            },
            PowerEvent::Called => PowerAction::Verify,
            PowerEvent::CallFailed(error) => {
                let mut message = self.tries[self.trial].label.clone();
                message.append(": ");
                message.append(error.as_str());
                self.note(message);
                self.next_try()
            },
            PowerEvent::TookEffect => PowerAction::Done,
            PowerEvent::NoEffect => {
                let mut message = self.tries[self.trial].label.clone();
                message.append(": no effect");
                self.note(message);
                self.next_try()
            },
        }
    }

    /// The setter that is tried.
    pub fn setter(&self) -> (r: &DbusSetter)
        requires
            self@.running(),
        ensures
            r@ == self@.setters[self@.at],
    {
        &self.setters[self.at]
    }

    /// The value that is tried.
    pub fn value(&self) -> (r: SetterValue)
        requires
            self@.calling(),
        ensures
            r == self@.tries[self@.trial].0,
    {
        self.tries[self.trial].value
    }

    /// The percentage that is to be set.
    pub fn percent(&self) -> (r: i32)
        ensures
            r == self@.percent,
    {
        self.percent as i32
    }

    /// The message for a brightness that could not be set. `before` and `after` are the
    /// percentages that were reported before and after, where they were.
    pub fn failure(self, before: Option<i32>, after: Option<i32>) -> (r: String)
        ensures
            r@ == "failed to call gsd-power SetPercentage; attempts: "@ + models::joined(
                all_notes(self@, before, after),
                " | "@,
            ),
    {
        let mut setting = self;
        if let (Some(b), Some(a)) = (before, after) {
            let away = a as i64 - setting.percent as i64;
            if a == b && (away > 1 || away < -1) {
                let mut message = String::from_str("gsd-power reported ");
                decimal::push_signed(&mut message, b as i64);
                message.append("% before and ");
                decimal::push_signed(&mut message, a as i64);
                message.append("% after; desired ");
                decimal::push_signed(&mut message, setting.percent as i64);
                message.append("% (no change)");
                setting.note(message);
            }
        }
        let list = models::join(&setting.attempts, " | ");
        let mut r = String::from_str("failed to call gsd-power SetPercentage; attempts: ");
        r.append(list.as_str());
        r
    }
}

/// All messages: a last one where the reported percentage has stayed away from the wanted one.
pub open spec fn all_notes(p: PowerView, before: Option<i32>, after: Option<i32>) -> Seq<Seq<char>> {
    match (before, after) {
        (Some(b), Some(a)) => if a == b && (a - p.percent > 1 || a - p.percent < -1) {
            noted(
                p.attempts,
                "gsd-power reported "@ + decimal::signed(b as int) + "% before and "@
                    + decimal::signed(a as int) + "% after; desired "@ + decimal::signed(
                    p.percent as int,
                ) + "% (no change)"@,
            )
        } else {
            p.attempts
        },
        _ => p.attempts,
    }
}

/// The level of the first device with the name.
pub open spec fn level_named(s: Seq<(Seq<char>, u32)>, name: Seq<char>, i: int) -> Option<u32>
    decreases s.len() - i,
{
    if i >= s.len() {
        None
    } else if s[i].0 == name {
        Some(s[i].1)
    } else {
        level_named(s, name, i + 1)
    }
}

/// Whether a device that is known from before has another level now.
pub open spec fn level_changed(before: Seq<(Seq<char>, u32)>, after: Seq<(Seq<char>, u32)>) -> bool {
    exists|i: int|
        0 <= i < before.len() && (level_named(after, (#[trigger] before[i]).0, 0) matches Some(n) && n
            != before[i].1)
}

/// Whether the brightness has changed: the reported percentage is the wanted one, give or take
/// one, or the level of a backlight is another one.
pub open spec fn effect(
    wanted: int,
    reported: Option<i32>,
    before: Seq<(Seq<char>, u32)>,
    after: Seq<(Seq<char>, u32)>,
) -> bool {
    (reported matches Some(p) && -1 <= p - wanted <= 1) || level_changed(before, after)
}

fn find_level(levels: &Vec<Level>, name: &str) -> (r: Option<u32>)
    ensures
        r == level_named(sorting::keys(levels@), name@, 0),
{
    let ghost s = sorting::keys(levels@);
    let mut i: usize = 0;
    while i < levels.len()
        invariant
            i <= levels@.len(),
            s == sorting::keys(levels@),
            level_named(s, name@, 0) == level_named(s, name@, i as int),
        decreases levels.len() - i,
    {
        if text::same_str(levels[i].name.as_str(), name) {
            return Some(levels[i].level);
        }
        i = i + 1;
    }
    None
}

/// Whether the brightness has changed.
pub fn verify_effect(wanted: i32, reported: Option<i32>, before: &Vec<Level>, after: &Vec<Level>) -> (r:
    bool)
    ensures
        r == effect(
            wanted as int,
            reported,
            sorting::keys(before@),
            sorting::keys(after@),
        ),
{
    if let Some(p) = reported {
        let away = p as i64 - wanted as i64;
        if -1 <= away && away <= 1 {
            return true;
        }
    }
    let ghost earlier = sorting::keys(before@);
    let ghost later = sorting::keys(after@);
    let mut i: usize = 0;
    while i < before.len()
        invariant
            i <= before@.len(),
            earlier == sorting::keys(before@),
            later == sorting::keys(after@),
            forall|j: int|
                0 <= j < i ==> !(level_named(later, (#[trigger] earlier[j]).0, 0) matches Some(n) && n
                    != earlier[j].1),
        decreases before.len() - i,
    {
        if let Some(n) = find_level(after, before[i].name.as_str()) {
            if n != before[i].level {
                assert(level_named(later, earlier[i as int].0, 0) == Some(n));
                assert(level_changed(earlier, later));
                return true;
            }
        }
        i = i + 1;
    }
    false
}

/// How long to wait before each look at the brightness, in milliseconds.
pub open spec fn effect_waits() -> Seq<u64> {
    seq![60u64, 120, 240, 480]
}

/// What comes next of the wait for a change of the brightness.
#[derive(Clone, Copy, Debug, PartialEq, Eq, Structural)]
pub enum EffectAction {
    /// Wait so many milliseconds, and look at the brightness.
    Wait(u64),
    /// The brightness has changed.
    TookEffect,
    /// The brightness has not changed.
    NoEffect,
}

/// The wait for a change of the brightness. It takes longer each time.
pub struct EffectWatch {
    waits: Trial<u64>,
}

impl View for EffectWatch {
    type V = TrialView<u64>;

    closed spec fn view(&self) -> TrialView<u64> {
        self.waits@
    }
}

/// What a trial of the waits stands for.
pub open spec fn effect_action(t: TrialView<u64>, action: TrialAction) -> EffectAction {
    match action {
        TrialAction::Try => EffectAction::Wait(t.items[t.at]),
        TrialAction::Done => EffectAction::TookEffect,
        TrialAction::Failed => EffectAction::NoEffect,
    }
}

impl EffectWatch {
    /// Starts with the first wait.
    pub fn new() -> (r: (Self, EffectAction))
        ensures
            r.0@ == (TrialView { items: effect_waits(), at: 0 }),
            r.1 == EffectAction::Wait(60),
    {
        let mut waits: Vec<u64> = Vec::new();
        waits.push(60);
        waits.push(120);
        waits.push(240);
        waits.push(480);
        assert(waits@ =~= effect_waits());
        let (waits, _) = Trial::new(waits);
        (EffectWatch { waits }, EffectAction::Wait(60))
    }

    /// Takes in a look at the brightness: the percentage that is reported, where it is, and the
    /// levels of the backlights, beside those from before.
    pub fn step(
        &mut self,
        wanted: i32,
        reported: Option<i32>,
        before: &Vec<Level>,
        after: &Vec<Level>,
    ) -> (r: EffectAction)
        requires
            old(self)@.running(),
        ensures
            ({
                let changed = effect(
                    wanted as int,
                    reported,
                    sorting::keys(before@),
                    sorting::keys(after@),
                );
                let (watch, action) = trial_step(old(self)@, changed);
                final(self)@ == watch && r == effect_action(watch, action)
            }),
            final(self)@.running(),
    {
        let changed = verify_effect(wanted, reported, before, after);
        match self.waits.step(changed) {
            TrialAction::Try => EffectAction::Wait(*self.waits.current()),
            TrialAction::Done => EffectAction::TookEffect,
            TrialAction::Failed => EffectAction::NoEffect,
        }
    }
}

/// The wait ends with the first look that shows a change; only where none of four looks shows
/// one, it ends without an effect.
pub proof fn effect_is_awaited(looks: Seq<bool>)
    requires
        looks.len() == effect_waits().len(),
    ensures
        ({
            let (end, action) = trial_run(TrialView { items: effect_waits(), at: 0 }, looks);
            &&& effect_action(end, action) is TookEffect <==> looks.contains(true)
            &&& effect_action(end, action) is NoEffect <==> !looks.contains(true)
            &&& forall|k: int| 0 <= k < end.at ==> !#[trigger] looks[k]
        }),
{
    let start = TrialView { items: effect_waits(), at: 0 };
    first_accepted_is_the_last_tried(start, looks);
}

/// No more than [`MAX_ATTEMPTS`] messages are kept, and none is lost, whatever happens.
pub proof fn messages_are_bounded(p: PowerView, e: PowerEvent)
    requires
        p.attempts.len() <= MAX_ATTEMPTS,
    ensures
        power_step(p, e).0.attempts.len() <= MAX_ATTEMPTS,
        p.attempts.is_prefix_of(power_step(p, e).0.attempts),
{
}

/// Every setter comes to its turn once: the setting goes on to the next value or the next
/// setter, never back, and a setter is opened before any value is tried with it.
pub proof fn setting_goes_forward(p: PowerView, e: PowerEvent)
    requires
        p.running(),
        e is CallFailed || e is NoEffect ==> p.calling(),
    ensures
        ({
            let (after, action) = power_step(p, e);
            &&& after.percent == p.percent
            &&& after.setters == p.setters
            &&& action is Open ==> after.at == p.at + 1
            &&& action is Exhausted ==> after.at == p.setters.len()
            &&& action is Call && !(e is Opened) ==> after.at == p.at && after.tries == p.tries
                && after.trial == p.trial + 1
            &&& action is Call && e is Opened ==> after.at == p.at && after.trial == 0
            &&& action is Verify || action is Done ==> after == p
        }),
{
}

/// What is tried with a method stands for the percentage, as such or as a share of one.
pub proof fn tries_stand_for_the_percentage(s: SetterView, p: nat, k: int)
    requires
        p <= 100,
        method_tries(s, p) matches Some(ts) && 0 <= k < ts.len(),
    ensures
        match method_tries(s, p)->Some_0[k].0 {
            SetterValue::U8(n) => n == p,
            SetterValue::I16(n) => n == p,
            SetterValue::U16(n) => n == p,
            SetterValue::I32(n) => n == p,
            SetterValue::U32(n) => n == p,
            SetterValue::F64(x) => x == float::whole_double(p) || x == float::hundredths(p),
        },
{
}

} // verus!
