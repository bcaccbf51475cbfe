//! What holds of every brightness in the power settings.
use vstd::prelude::*;

use crate::float;
use crate::gnome::discovery::SetterView;
use crate::gnome::power::{
    all_notes, effect, in_percent, interface_name, interfaces_to_ask, level_changed, level_named,
    method_label, method_tries, noted, percentage_step, power_step, property_label, property_value,
    unsigned_percent, PercentageAction, PercentageEvent, PercentageView, PowerAction, PowerEvent,
    PowerView, SetterValue,
};
use crate::sorting;
use crate::text_spec as spec;

verus! {

/// A percentage is brought into its range; a number in the range stays. What no percentage can be
/// stands for zero.
pub proof fn percentages_are_in_range(n: int, u: u32)
    ensures
        0 <= in_percent(n) <= 100,
        0 <= n <= 100 ==> in_percent(n) == n,
        n < 0 ==> in_percent(n) == 0,
        n > 100 ==> in_percent(n) == 100,
        u <= 100 ==> unsigned_percent(u) == u,
        100 < u <= i32::MAX ==> unsigned_percent(u) == 100,
        u > i32::MAX ==> unsigned_percent(u) == 0,
{
}

/// The known interfaces are asked, those that were found, and no others.
pub proof fn known_and_found_interfaces_are_asked(found: Seq<Seq<char>>, name: Seq<char>)
    ensures
        interfaces_to_ask(found).contains(name) <==> found.contains(name) || name
            == "org.gnome.SettingsDaemon.Power.Screen"@ || name == "org.gnome.SettingsDaemon.Power"@
            || name == "org.gnome.SettingsDaemon.Power.Backlight"@,
{
    let known = seq![
        "org.gnome.SettingsDaemon.Power.Screen"@,
        "org.gnome.SettingsDaemon.Power"@,
        "org.gnome.SettingsDaemon.Power.Backlight"@,
    ];
    let all = found + known;
    sorting::sorted_texts_are_distinct(all);
    if found.contains(name) {
        let k = choose|k: int| 0 <= k < found.len() && found[k] == name;
        assert(all[k] == name);
    }
    let n = found.len() as int;
    assert(all[n] == known[0] && all[n + 1] == known[1] && all[n + 2] == known[2]);
    if all.contains(name) {
        let k = choose|k: int| 0 <= k < all.len() && all[k] == name;
        if k < n {
            assert(found[k] == name);
        } else {
            assert(name == known[k - n]);
        }
    }
}

/// A method is asked for a number without a sign first, then for one with a sign, and then comes
/// the next method; after both methods the next interface, and after all interfaces the next
/// object, which is the second of two.
pub proof fn ways_to_ask_come_in_turn(q: PercentageView, error: String)
    requires
        q.running(),
        q.asking(),
    ensures
        ({
            let (after, action) = percentage_step(q, PercentageEvent::CallFailed(error));
            &&& q.call == 0 || q.call == 2 ==> action is AskSigned && after.call == q.call + 1
            &&& q.call == 1 ==> action is AskUnsigned && after.call == 2
            &&& q.call == 3 && q.iface + 1 < q.ifaces.len() ==> action is Open && after.iface == q.iface
                + 1 && after.call == 0 && after.path == q.path
            &&& q.call == 3 && q.iface + 1 == q.ifaces.len() ==> {
                &&& q.path == 0 ==> action is Describe && after.path == 1
                &&& q.path == 1 ==> action is Exhausted
            }
            &&& q.call <= 3
            &&& q.error is None ==> after.error == Some(error@)
        }),
{
}

/// An interface that cannot be opened is passed over with all its methods.
pub proof fn closed_interfaces_are_passed_over(q: PercentageView, error: String)
    requires
        q.running(),
        q.asking(),
    ensures
        ({
            let (after, action) = percentage_step(q, PercentageEvent::OpenFailed(error));
            &&& q.iface + 1 < q.ifaces.len() ==> action is Open && after.iface == q.iface + 1
            &&& q.iface + 1 == q.ifaces.len() && q.path == 0 ==> action is Describe && after.path == 1
            &&& q.iface + 1 == q.ifaces.len() && q.path == 1 ==> action is Exhausted
            &&& q.error is None ==> after.error == Some(error@)
        }),
        percentage_step(q, PercentageEvent::Opened).1 is AskUnsigned,
        percentage_step(q, PercentageEvent::Opened).0.call == 0,
{
}

/// The number that a method gives is the percentage, brought into its range.
pub proof fn numbers_are_percentages(q: PercentageView, u: u32, n: i32)
    ensures
        u <= 100 ==> percentage_step(q, PercentageEvent::Unsigned(u)).1 == PercentageAction::Found(
            u as i32,
        ),
        0 <= n <= 100 ==> percentage_step(q, PercentageEvent::Signed(n)).1 == PercentageAction::Found(n),
        n < 0 ==> percentage_step(q, PercentageEvent::Signed(n)).1 == PercentageAction::Found(0),
        n > 100 ==> percentage_step(q, PercentageEvent::Signed(n)).1 == PercentageAction::Found(100),
{
}

/// A method that takes a whole number gets the percentage, in the type that it takes.
pub proof fn whole_numbers_are_percentages(s: SetterView, p: nat)
    requires
        p <= 100,
        s.arg_ty == "y"@ || s.arg_ty == "n"@ || s.arg_ty == "q"@ || s.arg_ty == "i"@ || s.arg_ty == "u"@,
    ensures
        ({
            let v = if s.arg_ty == "y"@ {
                SetterValue::U8(p as u8)
            } else if s.arg_ty == "n"@ {
                SetterValue::I16(p as i16)
            } else if s.arg_ty == "q"@ {
                SetterValue::U16(p as u16)
            } else if s.arg_ty == "i"@ {
                SetterValue::I32(p as i32)
            } else {
                SetterValue::U32(p as u32)
            };
            &&& method_tries(s, p) == Some(seq![(v, method_label(s, s.arg_ty))])
            &&& property_value(s, p) == Some(v)
        }),
{
    lemma_types_differ();
}

proof fn lemma_types_differ()
    ensures
        "y"@[0] == 'y' && "n"@[0] == 'n' && "q"@[0] == 'q' && "i"@[0] == 'i' && "u"@[0] == 'u' && "d"@[0]
            == 'd',
{
    reveal_strlit("y");
    reveal_strlit("n");
    reveal_strlit("q");
    reveal_strlit("i");
    reveal_strlit("u");
    reveal_strlit("d");
}

/// A method that takes a number with places is tried with the percentage and with the share, and
/// with the percentage first exactly if its name speaks of percent; a property gets the share.
pub proof fn likelier_numbers_come_first(s: SetterView, p: nat)
    requires
        s.arg_ty == "d"@,
    ensures
        method_tries(s, p) matches Some(t) && t.len() == 2 && {
            let first = t[0].0;
            let second = t[1].0;
            &&& spec::contains(spec::lower(s.name), "percent"@) ==> first == SetterValue::F64(
                float::whole_double(p),
            ) && second == SetterValue::F64(float::hundredths(p))
            &&& !spec::contains(spec::lower(s.name), "percent"@) ==> first == SetterValue::F64(
                float::hundredths(p),
            ) && second == SetterValue::F64(float::whole_double(p))
        },
        property_value(s, p) == Some(SetterValue::F64(float::hundredths(p))),
{
}

/// A method or property of any other type is not tried.
pub proof fn other_types_are_not_tried(s: SetterView, p: nat)
    requires
        s.arg_ty != "y"@ && s.arg_ty != "n"@ && s.arg_ty != "q"@ && s.arg_ty != "i"@ && s.arg_ty != "u"@
            && s.arg_ty != "d"@,
    ensures
        method_tries(s, p) is None,
        property_value(s, p) is None,
{
}

/// Once its object is open, a method is called with its first value, and a property is set to its
/// only one, where its interface has a name.
pub proof fn open_setters_are_tried(p: PowerView)
    requires
        p.running(),
    ensures
        ({
            let s = p.setters[p.at];
            let (after, action) = power_step(p, PowerEvent::Opened);
            &&& s.kind is Method && method_tries(s, p.percent) is Some ==> action is Call && after.tries
                == method_tries(s, p.percent)->Some_0 && after.trial == 0 && after.at == p.at
            &&& s.kind is Property && interface_name(s.iface) && property_value(s, p.percent) is Some
                ==> action is Call && after.tries == seq![
                (property_value(s, p.percent)->Some_0, property_label(s)),
            ] && after.trial == 0 && after.at == p.at
            &&& (s.kind is Method && method_tries(s, p.percent) is None) || (s.kind is Property && (
            !interface_name(s.iface) || property_value(s, p.percent) is None)) ==> after.at == p.at + 1
                && (action is Open <==> p.at + 1 < p.setters.len()) && (action is Exhausted <==> p.at + 1
                == p.setters.len())
        }),
{
}

/// A value that was accepted is verified, one that took effect ends the setting, and one that was
/// refused or had none is noted with its reason before the next value comes.
pub proof fn values_are_tried_until_one_takes_effect(p: PowerView, error: String)
    requires
        p.running(),
        p.calling(),
        p.attempts.len() < 40,
    ensures
        power_step(p, PowerEvent::Called) == (p, PowerAction::Verify),
        power_step(p, PowerEvent::TookEffect) == (p, PowerAction::Done),
        ({
            let (after, action) = power_step(p, PowerEvent::CallFailed(error));
            &&& after.attempts == p.attempts.push(p.tries[p.trial].1 + ": "@ + error@)
            &&& p.trial + 1 < p.tries.len() ==> action is Call && after.trial == p.trial + 1
            &&& p.trial + 1 == p.tries.len() ==> after.at == p.at + 1
        }),
        ({
            let (after, action) = power_step(p, PowerEvent::NoEffect);
            &&& after.attempts == p.attempts.push(p.tries[p.trial].1 + ": no effect"@)
            &&& p.trial + 1 < p.tries.len() ==> action is Call && after.trial == p.trial + 1
            &&& p.trial + 1 == p.tries.len() ==> after.at == p.at + 1
        }),
{
}

/// The level of a device is that of the first one with its name.
pub proof fn levels_are_found_by_name(s: Seq<(Seq<char>, u32)>, name: Seq<char>, i: int, k: int)
    requires
        0 <= i <= k < s.len(),
        s[k].0 == name,
        forall|j: int| i <= j < k ==> (#[trigger] s[j]).0 != name,
    ensures
        level_named(s, name, i) == Some(s[k].1),
    decreases k - i,
{
    if i < k {
        assert(s[i].0 != name);
        levels_are_found_by_name(s, name, i + 1, k);
    }
}

proof fn lemma_level_named(s: Seq<(Seq<char>, u32)>, name: Seq<char>, i: int)
    requires
        0 <= i,
    ensures
        level_named(s, name, i) matches Some(n) ==> exists|k: int|
            i <= k < s.len() && #[trigger] s[k] == (name, n),
    decreases s.len() - i,
{
    if i < s.len() {
        if s[i].0 == name {
            assert(s[i] == (name, s[i].1));
        } else {
            lemma_level_named(s, name, i + 1);
            if let Some(n) = level_named(s, name, i) {
                let k = choose|k: int| i + 1 <= k < s.len() && #[trigger] s[k] == (name, n);
                assert(s[k] == (name, n));
            }
        }
    }
}

/// A setting took effect exactly if the percentage that is reported is at most one away from the
/// wanted one, or the level of a backlight has changed; levels that stay are no effect.
pub proof fn effects_are_seen(
    wanted: int,
    reported: Option<i32>,
    before: Seq<(Seq<char>, u32)>,
    after: Seq<(Seq<char>, u32)>,
)
    ensures
        reported == Some(wanted as i32) && i32::MIN <= wanted <= i32::MAX ==> effect(
            wanted,
            reported,
            before,
            after,
        ),
        reported matches Some(p) ==> (p - wanted == 1 || wanted - p == 1) ==> effect(
            wanted,
            reported,
            before,
            after,
        ),
        reported matches Some(p) ==> (p - wanted > 1 || wanted - p > 1) ==> effect(
            wanted,
            reported,
            before,
            after,
        ) == level_changed(before, after),
        reported is None ==> effect(wanted, reported, before, after) == level_changed(before, after),
        !level_changed(before, Seq::empty()),
        !level_changed(Seq::empty(), after),
{
}

/// A backlight with another level than before is a change, and without such a one there is none.
pub proof fn changed_levels_are_seen(
    before: Seq<(Seq<char>, u32)>,
    after: Seq<(Seq<char>, u32)>,
    name: Seq<char>,
    old_level: u32,
    new_level: u32,
)
    requires
        old_level != new_level,
    ensures
        before.contains((name, old_level)) && level_named(after, name, 0) == Some(new_level)
            ==> level_changed(before, after),
        level_changed(before, after) ==> exists|i: int, k: int|
            0 <= i < before.len() && 0 <= k < after.len() && (#[trigger] before[i]).0 == (
            #[trigger] after[k]).0 && before[i].1 != after[k].1,
{
    if level_changed(before, after) {
        let i = choose|i: int|
            0 <= i < before.len() && (level_named(after, (#[trigger] before[i]).0, 0) matches Some(n)
                && n != before[i].1);
        lemma_level_named(after, before[i].0, 0);
        let n = level_named(after, before[i].0, 0)->Some_0;
        let k = choose|k: int| 0 <= k < after.len() && #[trigger] after[k] == (before[i].0, n);
        assert(before[i].0 == after[k].0 && before[i].1 != after[k].1);
    }
    if before.contains((name, old_level)) && level_named(after, name, 0) == Some(new_level) {
        let i = choose|i: int| 0 <= i < before.len() && before[i] == (name, old_level);
        assert(before[i].0 == name);
    }
}

/// A percentage that has stayed away from the wanted one is told at the end; one that has come to
/// it, or has changed, is not.
pub proof fn unchanged_percentages_are_told(p: PowerView, before: i32, after: i32)
    ensures
        all_notes(p, None, Some(after)) == p.attempts && all_notes(p, Some(before), None) == p.attempts,
        before != after ==> all_notes(p, Some(before), Some(after)) == p.attempts,
        -1 <= after - p.percent <= 1 ==> all_notes(p, Some(before), Some(after)) == p.attempts,
        before == after && !(-1 <= after - p.percent <= 1) && p.attempts.len() < 40 ==> all_notes(
            p,
            Some(before),
            Some(after),
        ).len() == p.attempts.len() + 1,
{
}

} // verus!
