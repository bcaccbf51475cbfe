//! What holds of every connector and of every bus that leads to one.
use vstd::prelude::*;

use crate::decimal;
use crate::gnome::connectors::{
    aliases, bus_number, connector_in, entry_bus, first_bus, first_crtc, first_nonzero,
    is_connector_name, is_internal, last_connector, least_bus, named_connector, numbers,
    output_crtc, renamed, DrmEntry,
};
use crate::gnome::dbus::DbusValue;
use crate::sorting;
use crate::text_spec as spec;

verus! {

proof fn lemma_lower_prefix(a: Seq<char>, rest: Seq<char>, p: Seq<char>)
    requires
        spec::lower(a) == p,
    ensures
        spec::starts_with(spec::lower(a + rest), p),
{
    assert(a.len() == spec::lower(a).len());
    assert(spec::lower(a + rest).take(p.len() as int) =~= p);
}

/// The connectors of built-in panels are those whose names begin with `eDP`, `LVDS` or `DSI`, in
/// capital or small letters.
pub proof fn panels_are_told_by_their_names(a: Seq<char>, rest: Seq<char>, connector: Seq<char>)
    ensures
        spec::lower(a) == "edp"@ || spec::lower(a) == "lvds"@ || spec::lower(a) == "dsi"@
            ==> is_internal(a + rest),
        is_internal(connector) ==> connector.len() >= 3 && {
            let l = spec::lower(connector);
            (l[0] == 'e' && l[1] == 'd' && l[2] == 'p') || (l[0] == 'l' && l[1] == 'v' && l[2] == 'd'
                && connector.len() >= 4 && l[3] == 's') || (l[0] == 'd' && l[1] == 's' && l[2] == 'i')
        },
{
    reveal_strlit("edp");
    reveal_strlit("lvds");
    reveal_strlit("dsi");
    if spec::lower(a) == "edp"@ {
        lemma_lower_prefix(a, rest, "edp"@);
    }
    if spec::lower(a) == "lvds"@ {
        lemma_lower_prefix(a, rest, "lvds"@);
    }
    if spec::lower(a) == "dsi"@ {
        lemma_lower_prefix(a, rest, "dsi"@);
    }
    let l = spec::lower(connector);
    if spec::starts_with(l, "edp"@) {
        assert(l.take(3)[0] == 'e' && l.take(3)[1] == 'd' && l.take(3)[2] == 'p');
    }
    if spec::starts_with(l, "lvds"@) {
        assert(l.take(4)[0] == 'l' && l.take(4)[1] == 'v' && l.take(4)[2] == 'd' && l.take(4)[3] == 's');
    }
    if spec::starts_with(l, "dsi"@) {
        assert(l.take(3)[0] == 'd' && l.take(3)[1] == 's' && l.take(3)[2] == 'i');
    }
}

/// What Mutter calls `DVI-N` may be either of the kernel's two kinds of DVI.
pub proof fn dvi_names_are_aliases(n: Seq<char>)
    requires
        n.len() > 0 ==> !spec::is_space(n.last()),
    ensures
        aliases("DVI-"@ + n).contains("DVI-D-"@ + n),
        aliases("DVI-"@ + n).contains("DVI-I-"@ + n),
{
    let a = "DVI-"@ + n;
    reveal_strlit("DVI-");
    reveal_strlit("HDMI-");
    reveal_strlit("HDMI-A-");
    assert("DVI-"@[0] == 'D' && "DVI-"@[3] == '-');
    assert("HDMI-"@[0] == 'H' && "HDMI-A-"@[0] == 'H');
    assert(n.len() > 0 ==> a.last() == n.last());
    assert(n.len() == 0 ==> a.last() == '-');
    spec::lemma_trim_solid(a);
    assert(a.take(4) =~= "DVI-"@);
    assert(a.skip(4) =~= n);
    assert(a.len() >= 5 ==> a.take(5)[0] == 'D');
    assert(a.len() >= 7 ==> a.take(7)[0] == 'D');
    let list = seq![a] + renamed(a, "HDMI-"@, "HDMI-A-"@) + renamed(a, "DVI-"@, "DVI-D-"@) + renamed(
        a,
        "DVI-"@,
        "DVI-I-"@,
    ) + renamed(a, "HDMI-A-"@, "HDMI-"@);
    assert(list[1] == "DVI-D-"@ + n);
    assert(list[2] == "DVI-I-"@ + n);
    assert(list.contains("DVI-D-"@ + n));
    assert(list.contains("DVI-I-"@ + n));
    sorting::sorted_texts_are_distinct(list);
}

/// A connector has no other names than those of the two kinds with two spellings.
pub proof fn no_other_names_are_aliases(connector: Seq<char>, name: Seq<char>)
    requires
        aliases(connector).contains(name),
    ensures
        ({
            let c = spec::trim(connector);
            ||| name == c
            ||| exists|n: Seq<char>|
                (c == "HDMI-"@ + n && name == #[trigger] ("HDMI-A-"@ + n))
            ||| exists|n: Seq<char>|
                (c == "HDMI-A-"@ + n && name == #[trigger] ("HDMI-"@ + n))
            ||| exists|n: Seq<char>|
                (c == "DVI-"@ + n && name == #[trigger] ("DVI-D-"@ + n))
            ||| exists|n: Seq<char>|
                (c == "DVI-"@ + n && name == #[trigger] ("DVI-I-"@ + n))
        }),
{
    let c = spec::trim(connector);
    let l1 = renamed(c, "HDMI-"@, "HDMI-A-"@);
    let l2 = renamed(c, "DVI-"@, "DVI-D-"@);
    let l3 = renamed(c, "DVI-"@, "DVI-I-"@);
    let l4 = renamed(c, "HDMI-A-"@, "HDMI-"@);
    let list = seq![c] + l1 + l2 + l3 + l4;
    sorting::sorted_texts_are_distinct(list);
    let k = choose|k: int| 0 <= k < list.len() && list[k] == name;
    assert(list.contains(name));
    lemma_renamed(c, "HDMI-"@, "HDMI-A-"@);
    lemma_renamed(c, "DVI-"@, "DVI-D-"@);
    lemma_renamed(c, "DVI-"@, "DVI-I-"@);
    lemma_renamed(c, "HDMI-A-"@, "HDMI-"@);
    if k == 0 {
        assert(name == c);
    } else if k < 1 + l1.len() {
        assert(name == l1[0]);
        let n = c.skip("HDMI-"@.len() as int);
        assert(name == "HDMI-A-"@ + n);
    } else if k < 1 + l1.len() + l2.len() {
        assert(name == l2[0]);
        let n = c.skip("DVI-"@.len() as int);
        assert(name == "DVI-D-"@ + n);
    } else if k < 1 + l1.len() + l2.len() + l3.len() {
        assert(name == l3[0]);
        let n = c.skip("DVI-"@.len() as int);
        assert(name == "DVI-I-"@ + n);
    } else {
        assert(name == l4[0]);
        let n = c.skip("HDMI-A-"@.len() as int);
        assert(name == "HDMI-"@ + n);
    }
}

proof fn lemma_renamed(c: Seq<char>, prefix: Seq<char>, other: Seq<char>)
    ensures
        renamed(c, prefix, other).len() <= 1,
        renamed(c, prefix, other).len() == 1 ==> c == prefix + c.skip(prefix.len() as int)
            && renamed(c, prefix, other)[0] == other + c.skip(prefix.len() as int),
{
    if spec::starts_with(c, prefix) {
        assert(c =~= c.take(prefix.len() as int) + c.skip(prefix.len() as int));
    }
}

/// The name of a bus is read as its number.
pub proof fn buses_are_read(n: u32, name: Seq<char>)
    ensures
        bus_number("i2c-"@ + decimal::decimal(n as nat)) == Some(n),
        bus_number(name) is Some ==> name == "i2c-"@ + name.skip(4) && decimal::u32_value(name.skip(4))
            == bus_number(name),
{
    reveal_strlit("i2c-");
    let d = decimal::decimal(n as nat);
    decimal::u32_read_after_write(n);
    assert(("i2c-"@ + d).take(4) =~= "i2c-"@);
    assert(("i2c-"@ + d).skip(4) =~= d);
    if bus_number(name) is Some {
        assert(name =~= name.take(4) + name.skip(4));
    }
}

/// The least bus is one of those that are named, and no other of them has a smaller number.
pub proof fn least_bus_is_a_minimum(names: Seq<Seq<char>>)
    ensures
        least_bus(names) is None <==> (forall|k: int|
            0 <= k < names.len() ==> bus_number(#[trigger] names[k]) is None),
        least_bus(names) matches Some(n) ==> (exists|k: int|
            0 <= k < names.len() && bus_number(#[trigger] names[k]) == Some(n)) && (forall|k: int|
            0 <= k < names.len() && bus_number(#[trigger] names[k]) is Some ==> n
                <= bus_number(names[k])->Some_0),
    decreases names.len(),
{
    if names.len() > 0 {
        let t = names.drop_last();
        let last = names.len() - 1;
        least_bus_is_a_minimum(t);
        assert forall|k: int| 0 <= k < t.len() implies #[trigger] names[k] == t[k] by {}
        assert(names[last] == names.last());
        if let Some(n) = least_bus(names) {
            if least_bus(t) == Some(n) {
                let k = choose|k: int| 0 <= k < t.len() && bus_number(#[trigger] t[k]) == Some(n);
                assert(bus_number(names[k]) == Some(n));
            } else {
                assert(bus_number(names[last]) == Some(n));
            }
        } else {
            assert forall|k: int| 0 <= k < names.len() implies bus_number(#[trigger] names[k]) is None by {
                if k < t.len() {
                    assert(bus_number(t[k]) is None);
                }
            }
        }
        if forall|k: int| 0 <= k < names.len() ==> bus_number(#[trigger] names[k]) is None {
            assert forall|k: int| 0 <= k < t.len() implies bus_number(#[trigger] t[k]) is None by {
                assert(bus_number(names[k]) is None);
            }
        }
    }
}

/// A device of the connector has the bus that its link names, or else the least one among its
/// files.
pub proof fn devices_lead_to_buses(e: DrmEntry, card: Seq<char>, c: Seq<char>, names: Seq<Seq<char>>)
    requires
        e.name@ == "card"@ + card + "-"@ + c,
        !card.contains('-'),
        names.contains(c),
    ensures
        e.ddc is Some && bus_number(e.ddc->Some_0@) is Some ==> entry_bus(e, names) == bus_number(
            e.ddc->Some_0@,
        ),
        (e.ddc is None || bus_number(e.ddc->Some_0@) is None) && e.files is Some ==> entry_bus(e, names)
            == least_bus(spec::strings(e.files->Some_0@)),
{
    lemma_device(e, card, c);
}

/// A device of another connector has no bus for this one.
pub proof fn other_devices_lead_nowhere(
    e: DrmEntry,
    card: Seq<char>,
    c: Seq<char>,
    names: Seq<Seq<char>>,
)
    requires
        e.name@ == "card"@ + card + "-"@ + c,
        !card.contains('-'),
        !names.contains(c),
    ensures
        entry_bus(e, names) is None,
{
    lemma_device(e, card, c);
}

proof fn lemma_device(e: DrmEntry, card: Seq<char>, c: Seq<char>)
    requires
        e.name@ == "card"@ + card + "-"@ + c,
        !card.contains('-'),
    ensures
        spec::split_once(e.name@, "-"@) == Some(("card"@ + card, c)),
        spec::starts_with(e.name@, "card"@),
{
    reveal_strlit("card");
    reveal_strlit("-");
    assert("-"@ =~= seq!['-']);
    let a = "card"@ + card;
    assert(!a.contains('-')) by {
        if a.contains('-') {
            let i = choose|i: int| 0 <= i < a.len() && a[i] == '-';
            if i >= 4 {
                assert(card[i - 4] == '-');
            }
        }
    }
    spec::lemma_split_at(a, '-', c);
    assert(e.name@.take(4) =~= "card"@);
}

/// The bus is that of the first device that has one.
pub proof fn first_bus_is_found(entries: Seq<DrmEntry>, names: Seq<Seq<char>>, k: int)
    requires
        0 <= k < entries.len(),
        entry_bus(entries[k], names) is Some,
        forall|i: int| 0 <= i < k ==> entry_bus(#[trigger] entries[i], names) is None,
    ensures
        first_bus(entries, names) == entry_bus(entries[k], names),
    decreases entries.len(),
{
    let t = entries.drop_last();
    if k < t.len() {
        assert forall|i: int| 0 <= i < k implies entry_bus(#[trigger] t[i], names) is None by {
            assert(t[i] == entries[i]);
        }
        first_bus_is_found(t, names, k);
    } else {
        assert forall|i: int| 0 <= i < t.len() implies entry_bus(#[trigger] t[i], names) is None by {
            assert(t[i] == entries[i]);
        }
        devices_without_buses_give_none(t, names);
    }
}

/// Where no device has a bus, there is none.
pub proof fn devices_without_buses_give_none(entries: Seq<DrmEntry>, names: Seq<Seq<char>>)
    requires
        forall|i: int| 0 <= i < entries.len() ==> entry_bus(#[trigger] entries[i], names) is None,
    ensures
        first_bus(entries, names) is None,
    decreases entries.len(),
{
    if entries.len() > 0 {
        let t = entries.drop_last();
        assert forall|i: int| 0 <= i < t.len() implies entry_bus(#[trigger] t[i], names) is None by {
            assert(t[i] == entries[i]);
        }
        devices_without_buses_give_none(t, names);
        assert(entries[entries.len() - 1] == entries.last());
    }
}

/// A connector's name has a hyphen and a digit, and begins like one of the known kinds; any text
/// of a known kind with both is one, whatever white space stands around it.
pub proof fn connector_names_have_kind_hyphen_and_digit(s: Seq<char>)
    ensures
        is_connector_name(s) ==> spec::trim(s).contains('-') && (exists|i: int|
            0 <= i < spec::trim(s).len() && spec::is_digit(#[trigger] spec::trim(s)[i])),
        is_connector_name(s) ==> {
            let f = spec::lower(spec::trim(s))[0];
            f == 'e' || f == 'd' || f == 'h' || f == 'v' || f == 'l'
        },
        is_internal(spec::trim(s)) && spec::trim(s).contains('-') && (exists|i: int|
            0 <= i < spec::trim(s).len() && spec::is_digit(#[trigger] spec::trim(s)[i]))
            ==> is_connector_name(s),
{
    reveal_strlit("edp");
    reveal_strlit("dp");
    reveal_strlit("hdmi");
    reveal_strlit("dvi");
    reveal_strlit("vga");
    reveal_strlit("lvds");
    reveal_strlit("dsi");
    let l = spec::lower(spec::trim(s));
    if spec::starts_with(l, "edp"@) {
        assert(l.take(3)[0] == 'e');
    }
    if spec::starts_with(l, "dp"@) {
        assert(l.take(2)[0] == 'd');
    }
    if spec::starts_with(l, "hdmi"@) {
        assert(l.take(4)[0] == 'h');
    }
    if spec::starts_with(l, "dvi"@) {
        assert(l.take(3)[0] == 'd');
    }
    if spec::starts_with(l, "vga"@) {
        assert(l.take(3)[0] == 'v');
    }
    if spec::starts_with(l, "lvds"@) {
        assert(l.take(4)[0] == 'l');
    }
    if spec::starts_with(l, "dsi"@) {
        assert(l.take(3)[0] == 'd');
    }
}

/// Of the properties of an output, `name` names its connector before all others, and `connector`
/// only where no other does.
pub proof fn properties_name_connectors_in_turn(v: DbusValue)
    ensures
        v matches DbusValue::Dict(d) ==> {
            &&& named_connector(d@, "name"@) is Some ==> connector_in(v) == named_connector(d@, "name"@)
            &&& named_connector(d@, "name"@) is None && named_connector(d@, "display-name"@) is Some
                ==> connector_in(v) == named_connector(d@, "display-name"@)
            &&& named_connector(d@, "name"@) is None && named_connector(d@, "display-name"@) is None
                && named_connector(d@, "connector-name"@) is Some ==> connector_in(v)
                == named_connector(d@, "connector-name"@)
            &&& named_connector(d@, "name"@) is None && named_connector(d@, "display-name"@) is None
                && named_connector(d@, "connector-name"@) is None ==> connector_in(v)
                == named_connector(d@, "connector"@)
        },
        v matches DbusValue::Text(s) ==> connector_in(v) == (if is_connector_name(s@) {
            Some(s@)
        } else {
            None
        }),
        connector_in(v) matches Some(c) ==> is_connector_name(c),
{
}

/// The last field that names a connector counts.
pub proof fn last_named_connector_counts(f: Seq<DbusValue>, k: int)
    requires
        0 <= k < f.len(),
        connector_in(f[k]) is Some,
        forall|i: int| k < i < f.len() ==> connector_in(#[trigger] f[i]) is None,
    ensures
        last_connector(f) == connector_in(f[k]),
    decreases f.len(),
{
    assert(f.last() == f[f.len() - 1]);
    if k < f.len() - 1 {
        let t = f.drop_last();
        assert forall|i: int| k < i < t.len() implies connector_in(#[trigger] t[i]) is None by {
            assert(t[i] == f[i]);
        }
        last_named_connector_counts(t, k);
    }
}

/// The numbers are those of the fields, in their order.
pub proof fn numbers_keep_their_order(a: Seq<DbusValue>, n: u32)
    ensures
        numbers(Seq::empty()) == Seq::<u32>::empty(),
        numbers(a.push(DbusValue::U32(n))) == numbers(a).push(n),
        forall|v: DbusValue| !(v is U32) ==> #[trigger] numbers(a.push(v)) == numbers(a),
{
    assert(a.push(DbusValue::U32(n)).drop_last() =~= a);
    assert forall|v: DbusValue| !(v is U32) implies #[trigger] numbers(a.push(v)) == numbers(a) by {
        assert(a.push(v).drop_last() =~= a);
    }
}

/// The controller of an output is the first number after its identifier that is not zero.
pub proof fn controllers_follow_the_identifier(
    v: DbusValue,
    names: Seq<Seq<char>>,
    name: Seq<char>,
    k: int,
)
    requires
        v matches DbusValue::Struct(f) && last_connector(f@) == Some(name) && 1 <= k < numbers(
            f@,
        ).len() && numbers(f@)[k] != 0 && (forall|i: int|
            1 <= i < k ==> #[trigger] numbers(f@)[i] == 0),
    ensures
        v matches DbusValue::Struct(f) && output_crtc(v, names) == (if names.contains(name) {
            Some(numbers(f@)[k])
        } else {
            None
        }),
{
    if let DbusValue::Struct(f) = v {
        lemma_first_nonzero(numbers(f@), 1, k);
    }
}

proof fn lemma_first_nonzero(s: Seq<u32>, i: int, k: int)
    requires
        0 <= i <= k < s.len(),
        s[k] != 0,
        forall|j: int| i <= j < k ==> #[trigger] s[j] == 0,
    ensures
        first_nonzero(s, i) == Some(s[k]),
    decreases k - i,
{
    if i < k {
        assert(s[i] == 0);
        lemma_first_nonzero(s, i + 1, k);
    }
}

/// The controller is that of the first output that has one.
pub proof fn first_controller_is_found(outputs: Seq<DbusValue>, names: Seq<Seq<char>>, i: int, k: int)
    requires
        0 <= i <= k < outputs.len(),
        output_crtc(outputs[k], names) is Some,
        forall|j: int| i <= j < k ==> output_crtc(#[trigger] outputs[j], names) is None,
    ensures
        first_crtc(outputs, names, i) == output_crtc(outputs[k], names),
    decreases k - i,
{
    if i < k {
        assert(output_crtc(outputs[i], names) is None);
        first_controller_is_found(outputs, names, i + 1, k);
    }
}

} // verus!
