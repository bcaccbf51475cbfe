//! Setting a backlight through the login manager. The method for it has moved between versions,
//! so that the known one is called first, and then whatever else looks like it.
use vstd::prelude::*;

use crate::gnome::brightness;
use crate::gnome::brightness::{logind_call, LogindArg, LogindCall};
use crate::gnome::discovery::{DbusMethodSig, MethodView};
use crate::models;
use crate::search::seen;
use crate::text_spec as spec;

pub mod laws;

verus! {

/// What is waited for.
#[derive(Clone, Copy, Debug, PartialEq, Eq, Structural)]
pub enum LogindStage {
    /// The answer to the call of the known method.
    Manager,
    /// The other methods.
    Search,
    /// The object of a method.
    Object,
    /// The answer to the call of a method.
    Answer,
    /// Nothing any more.
    Finished,
}

/// What came of what was asked for last.
#[derive(Debug)]
pub enum LogindEvent {
    /// The object is open, or the call was accepted.
    Succeeded,
    /// The object cannot be opened, or the call was not accepted.
    Failed(String),
    /// These methods look as if they set a brightness.
    Found(Vec<DbusMethodSig>),
}

/// What is asked for next.
#[derive(Clone, Copy, Debug, PartialEq, Eq, Structural)]
pub enum LogindAction {
    /// Call the known method of the manager.
    CallManager,
    /// Look for other methods.
    Search,
    /// Open the object of the current method.
    Open,
    /// Call the current method with the value.
    Call(LogindArg),
    /// The backlight is set.
    Done,
    /// All methods have been tried.
    Exhausted,
}

/// Where the setting of a backlight stands.
#[verifier::ext_equal]
pub struct LogindView {
    pub value: u32,
    pub stage: LogindStage,
    pub methods: Seq<MethodView>,
    pub at: int,
    pub attempts: Seq<Seq<char>>,
}

impl LogindView {
    /// Whether a method is tried.
    pub open spec fn trying(self) -> bool {
        (self.stage is Object || self.stage is Answer) && 0 <= self.at < self.methods.len()
    }

    /// Whether the event answers what is waited for.
    pub open spec fn expects(self, e: LogindEvent) -> bool {
        match self.stage {
            LogindStage::Manager => !(e is Found),
            LogindStage::Search => e is Found,
            LogindStage::Object | LogindStage::Answer => !(e is Found) && self.trying(),
            LogindStage::Finished => false,
        }
    }
}

/// A method with its signature and its object, as it stands in messages.
pub open spec fn method_text(m: MethodView) -> Seq<char> {
    m.iface + "::"@ + m.method + "("@ + m.in_sig + ") @ "@ + m.path
}

/// Goes on to the first method from the place on that takes the subsystem and the device.
pub open spec fn to_method(v: LogindView, at: int) -> (LogindView, LogindAction)
    decreases v.methods.len() - at,
{
    if at >= v.methods.len() {
        (LogindView { at, stage: LogindStage::Finished, ..v }, LogindAction::Exhausted)
    } else if logind_call(v.methods[at].in_sig, v.value) is Skip {
        to_method(v, at + 1)
    } else {
        (LogindView { at, stage: LogindStage::Object, ..v }, LogindAction::Open)
    }
}

/// Goes on to the next method, with a message about this one.
pub open spec fn past_method(v: LogindView, message: Seq<char>) -> (LogindView, LogindAction) {
    to_method(LogindView { attempts: v.attempts.push(message), ..v }, v.at + 1)
}

/// One step: what was found out, and what is asked for next.
pub open spec fn logind_step(v: LogindView, e: LogindEvent) -> (LogindView, LogindAction) {
    let m = v.methods[v.at];
    match e {
        LogindEvent::Found(methods) => to_method(LogindView { methods: seen(methods@), ..v }, 0),
        LogindEvent::Succeeded => if v.stage is Object {
            match logind_call(m.in_sig, v.value) {
                LogindCall::With(arg) => (
                    LogindView { stage: LogindStage::Answer, ..v },
                    LogindAction::Call(arg),
                ),
                _ => past_method(v, method_text(m) + ": unsupported"@),
            }
        } else {
            (LogindView { stage: LogindStage::Finished, ..v }, LogindAction::Done)
        },
        LogindEvent::Failed(error) => match v.stage {
            LogindStage::Object => past_method(
                v,
                "proxy "@ + m.iface + " @ "@ + m.path + ": "@ + error@,
            ),
            LogindStage::Answer => past_method(v, method_text(m) + ": "@ + error@),
            _ => (LogindView { stage: LogindStage::Search, ..v }, LogindAction::Search),
        },
    }
}

/// The setting of a backlight.
#[derive(Debug)]
pub struct LogindSetting {
    value: u32,
    stage: LogindStage,
    methods: Vec<DbusMethodSig>,
    at: usize,
    attempts: Vec<String>,
}

impl View for LogindSetting {
    type V = LogindView;

    closed spec fn view(&self) -> LogindView {
        LogindView {
            value: self.value,
            stage: self.stage,
            methods: seen(self.methods@),
            at: self.at as int,
            attempts: spec::strings(self.attempts@),
        }
    }
}

fn method_string(m: &DbusMethodSig) -> (r: String)
    ensures
        r@ == method_text(m@),
{
    let mut r = m.iface.clone();
    r.append("::");
    r.append(m.method.as_str());
    r.append("(");
    r.append(m.in_sig.as_str());
    r.append(") @ ");
    r.append(m.path.as_str());
    r
}

impl LogindSetting {
    /// The setting of a level, which begins with the known method.
    pub fn new(value: u32) -> (r: (Self, LogindAction))
        ensures
            r.0@ == (LogindView {
                value,
                stage: LogindStage::Manager,
                methods: seq![],
                at: 0,
                attempts: seq![],
            }),
            r.1 == LogindAction::CallManager,
    {
        let r = LogindSetting {
            value,
            stage: LogindStage::Manager,
            methods: Vec::new(),
            at: 0,
            attempts: Vec::new(),
        };
        proof {
            assert(seen(r.methods@) =~= seq![]);
            assert(spec::strings(r.attempts@) =~= seq![]);
        }
        (r, LogindAction::CallManager)
    }

    fn go_to(&mut self, start: usize) -> (r: LogindAction)
        requires
            start <= old(self)@.methods.len(),
        ensures
            (final(self)@, r) == to_method(old(self)@, start as int),
    {
        let ghost before = self@;
        let mut at: usize = start;
        while at < self.methods.len()
            invariant
                at <= self@.methods.len(),
                self@ == before,
                before == old(self)@,
                to_method(before, start as int) == to_method(before, at as int),
            decreases self.methods.len() - at,
        {
            let m = &self.methods[at];
            assert(m@ == self@.methods[at as int]);
            match brightness::logind_argument(m.in_sig.as_str(), self.value) {
                LogindCall::Skip => {
                    at = at + 1;
                },
                _ => {
                    self.at = at;
                    self.stage = LogindStage::Object;
                    return LogindAction::Open;
                },
            }
        }
        self.at = at;
        self.stage = LogindStage::Finished;
        LogindAction::Exhausted
    }

    fn pass(&mut self, message: String) -> (r: LogindAction)
        requires
            old(self)@.trying(),
        ensures
            (final(self)@, r) == past_method(old(self)@, message@),
    {
        let ghost before = self@;
        self.attempts.push(message);
        assert(self@.attempts =~= before.attempts.push(message@));
        let at = self.at;
        let count = self.methods.len();
        assert(at < count);
        self.go_to(at + 1)
    }

    /// Takes in what came of what was asked for last.
    pub fn step(&mut self, e: LogindEvent) -> (r: LogindAction)
        requires
            old(self)@.expects(e),
        ensures
            (final(self)@, r) == logind_step(old(self)@, e),
            r is Open || r is Call ==> final(self)@.trying(),
    {
        let ghost start = self@;
        match e {
            LogindEvent::Found(methods) => {
                self.methods = methods;
                assert(self@ =~= LogindView { methods: seen(methods@), ..start });
                proof {
                    lemma_to_method(self@, 0);
                }
                self.go_to(0)
            },
            LogindEvent::Succeeded => match self.stage {
                LogindStage::Object => {
                    let m = &self.methods[self.at];
                    assert(m@ == start.methods[start.at]);
                    match brightness::logind_argument(m.in_sig.as_str(), self.value) {
                        LogindCall::With(arg) => {
                            self.stage = LogindStage::Answer;
                            LogindAction::Call(arg)
                        },
                        _ => {
                            let mut message = method_string(m);
                            message.append(": unsupported");
                            proof {
                                lemma_to_method(
                                    LogindView {
                                        attempts: start.attempts.push(message@),
                                        ..start
                                    },
                                    start.at + 1,
                                );
                            }
                            self.pass(message)
                        },
                    }
                },
                _ => {
                    self.stage = LogindStage::Finished;
                    LogindAction::Done
                },
            },
            LogindEvent::Failed(error) => match self.stage {
                LogindStage::Object => {
                    let m = &self.methods[self.at];
                    assert(m@ == start.methods[start.at]);
                    let mut message = String::from_str("proxy ");
                    message.append(m.iface.as_str());
                    message.append(" @ ");
                    message.append(m.path.as_str());
                    message.append(": ");
                    message.append(error.as_str());
                    proof {
                        lemma_to_method(
                            LogindView { attempts: start.attempts.push(message@), ..start },
                            start.at + 1,
                        );
                    }
                    self.pass(message)
                },
                LogindStage::Answer => {
                    let m = &self.methods[self.at];
                    assert(m@ == start.methods[start.at]);
                    let mut message = method_string(m);
                    message.append(": ");
                    message.append(error.as_str());
                    proof {
                        lemma_to_method(
                            LogindView { attempts: start.attempts.push(message@), ..start },
                            start.at + 1,
                        );
                    }
                    self.pass(message)
                },
                _ => {
                    self.stage = LogindStage::Search;
                    LogindAction::Search
                },
            },
        }
    }

    /// The method that is tried.
    pub fn method(&self) -> (r: &DbusMethodSig)
        requires
            self@.trying(),
        ensures
            r@ == self@.methods[self@.at],
    {
        &self.methods[self.at]
    }

    /// The message for a backlight that could not be set.
    pub fn failure(&self) -> (r: String)
        ensures
            r@ == "logind backlight control unavailable/denied; attempts: "@ + models::joined(
                self@.attempts,
                " | "@,
            ),
    {
        let list = models::join(&self.attempts, " | ");
        let mut r = String::from_str("logind backlight control unavailable/denied; attempts: ");
        r.append(list.as_str());
        r
    }
}

proof fn lemma_to_method(v: LogindView, at: int)
    requires
        at >= 0,
    ensures
        ({
            let (w, a) = to_method(v, at);
            &&& w.value == v.value
            &&& w.methods == v.methods
            &&& w.attempts == v.attempts
            &&& w.at >= at
            &&& (a is Open <==> w.stage is Object)
            &&& (a is Exhausted <==> w.stage is Finished)
            &&& (a is Open || a is Exhausted)
            &&& (a is Open ==> w.at < v.methods.len() && !(logind_call(
                v.methods[w.at].in_sig,
                v.value,
            ) is Skip))
        }),
    decreases v.methods.len() - at,
{
    if at < v.methods.len() && logind_call(v.methods[at].in_sig, v.value) is Skip {
        lemma_to_method(v, at + 1);
    }
}

/// How many answers the setting can still wait for, once the methods are known.
pub open spec fn answers_left(v: LogindView) -> int {
    2 * (v.methods.len() - v.at) + match v.stage {
        LogindStage::Object => 2int,
        LogindStage::Answer => 1,
        _ => 0,
    }
}

/// While methods are tried, every answer brings the setting nearer to its end: it is over, or it
/// waits for fewer answers than before. So it comes to an end whatever the answers are.
pub proof fn methods_are_tried_once(v: LogindView, e: LogindEvent)
    requires
        v.trying(),
        v.expects(e),
    ensures
        ({
            let (w, a) = logind_step(v, e);
            &&& w.stage is Finished <==> (a is Done || a is Exhausted)
            &&& !(w.stage is Finished) ==> w.trying() && answers_left(w) < answers_left(v)
            &&& w.methods == v.methods
        }),
{
    let m = v.methods[v.at];
    lemma_to_method(
        LogindView { attempts: v.attempts.push(method_text(m) + ": unsupported"@), ..v },
        v.at + 1,
    );
    if let LogindEvent::Failed(error) = e {
        lemma_to_method(
            LogindView { attempts: v.attempts.push(method_text(m) + ": "@ + error@), ..v },
            v.at + 1,
        );
        lemma_to_method(
            LogindView {
                attempts: v.attempts.push("proxy "@ + m.iface + " @ "@ + m.path + ": "@ + error@),
                ..v
            },
            v.at + 1,
        );
    }
}

/// A method that is passed over without a try does not take the subsystem and the device.
pub proof fn skipped_methods_take_something_else(v: LogindView, at: int, k: int)
    requires
        0 <= at <= k < to_method(v, at).0.at,
        k < v.methods.len(),
    ensures
        logind_call(v.methods[k].in_sig, v.value) is Skip,
    decreases v.methods.len() - at,
{
    if at < k {
        skipped_methods_take_something_else(v, at + 1, k);
    }
}

} // verus!
