//! What holds of every setting of a backlight over the login manager.
use vstd::prelude::*;

use crate::gnome::brightness::{logind_call, LogindCall};
use crate::gnome::discovery::DbusMethodSig;
use crate::gnome::logind::{
    logind_step, method_text, to_method, LogindAction, LogindEvent, LogindStage, LogindView,
};
use crate::search::seen;

verus! {

/// The first method from a place on that takes the subsystem and the device is opened; where there
/// is none, all have been tried.
pub proof fn first_fitting_method_is_opened(v: LogindView, at: int, k: int)
    requires
        0 <= at <= k < v.methods.len(),
        !(logind_call(v.methods[k].in_sig, v.value) is Skip),
        forall|i: int| at <= i < k ==> logind_call((#[trigger] v.methods[i]).in_sig, v.value) is Skip,
    ensures
        to_method(v, at) == (LogindView { at: k, stage: LogindStage::Object, ..v }, LogindAction::Open),
    decreases k - at,
{
    if at < k {
        assert(logind_call(v.methods[at].in_sig, v.value) is Skip);
        first_fitting_method_is_opened(v, at + 1, k);
    }
}

/// Where no method from a place on takes the subsystem and the device, the setting ends.
pub proof fn setting_ends_without_fitting_methods(v: LogindView, at: int)
    requires
        0 <= at <= v.methods.len(),
        forall|i: int|
            at <= i < v.methods.len() ==> logind_call((#[trigger] v.methods[i]).in_sig, v.value) is Skip,
    ensures
        to_method(v, at).1 is Exhausted,
        to_method(v, at).0.stage is Finished,
        to_method(v, at).0.attempts == v.attempts,
    decreases v.methods.len() - at,
{
    if at < v.methods.len() {
        assert(logind_call(v.methods[at].in_sig, v.value) is Skip);
        setting_ends_without_fitting_methods(v, at + 1);
    }
}

/// The known method is enough where it is accepted; only where it is not, others are looked for.
pub proof fn known_method_comes_first(v: LogindView, error: String)
    requires
        v.stage is Manager,
    ensures
        logind_step(v, LogindEvent::Succeeded).1 is Done,
        logind_step(v, LogindEvent::Succeeded).0.stage is Finished,
        logind_step(v, LogindEvent::Failed(error)).1 is Search,
        logind_step(v, LogindEvent::Failed(error)).0 == (LogindView { stage: LogindStage::Search, ..v }),
{
}

/// A method that is open is called with the value that its signature asks for; where it takes none
/// that can be given, that is noted and the next method comes.
pub proof fn open_methods_are_called(v: LogindView)
    requires
        v.stage is Object,
        v.trying(),
    ensures
        logind_call(v.methods[v.at].in_sig, v.value) matches LogindCall::With(arg) ==> logind_step(
            v,
            LogindEvent::Succeeded,
        ) == (LogindView { stage: LogindStage::Answer, ..v }, LogindAction::Call(arg)),
        logind_call(v.methods[v.at].in_sig, v.value) is Unsupported ==> logind_step(
            v,
            LogindEvent::Succeeded,
        ) == to_method(
            LogindView {
                attempts: v.attempts.push(method_text(v.methods[v.at]) + ": unsupported"@),
                ..v
            },
            v.at + 1,
        ),
{
}

/// The backlight is set once a method accepts the value; a refusal is noted with its reason, and
/// the next method comes.
pub proof fn answers_decide(v: LogindView, error: String)
    requires
        v.stage is Answer,
        v.trying(),
    ensures
        logind_step(v, LogindEvent::Succeeded).1 is Done,
        logind_step(v, LogindEvent::Failed(error)) == to_method(
            LogindView {
                attempts: v.attempts.push(method_text(v.methods[v.at]) + ": "@ + error@),
                ..v
            },
            v.at + 1,
        ),
{
}

/// An object that cannot be opened is noted with its reason, and the next method comes.
pub proof fn closed_objects_are_noted(v: LogindView, error: String)
    requires
        v.stage is Object,
        v.trying(),
    ensures
        logind_step(v, LogindEvent::Failed(error)) == to_method(
            LogindView {
                attempts: v.attempts.push(
                    "proxy "@ + v.methods[v.at].iface + " @ "@ + v.methods[v.at].path + ": "@ + error@,
                ),
                ..v
            },
            v.at + 1,
        ),
{
}

/// The methods that were found are tried from the first one on.
pub proof fn found_methods_are_tried(v: LogindView, methods: Vec<DbusMethodSig>)
    ensures
        logind_step(v, LogindEvent::Found(methods)) == to_method(
            LogindView { methods: seen(methods@), ..v },
            0,
        ),
        logind_step(v, LogindEvent::Found(methods)).0.attempts == v.attempts,
        methods@.len() == 0 ==> logind_step(v, LogindEvent::Found(methods)).1 is Exhausted,
{
    lemma_attempts_stay(LogindView { methods: seen(methods@), ..v }, 0);
}

proof fn lemma_attempts_stay(v: LogindView, at: int)
    ensures
        to_method(v, at).0.attempts == v.attempts,
        to_method(v, at).0.methods == v.methods,
        to_method(v, at).0.value == v.value,
    decreases v.methods.len() - at,
{
    if at < v.methods.len() && logind_call(v.methods[at].in_sig, v.value) is Skip {
        lemma_attempts_stay(v, at + 1);
    }
}

} // verus!
