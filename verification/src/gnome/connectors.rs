//! The connectors of monitors: their names, and what stands behind them in the kernel and in
//! Mutter.
use vstd::prelude::*;

use crate::decimal;
use crate::gnome::dbus;
use crate::gnome::dbus::{DbusEntry, DbusValue};
use crate::sorting;
use crate::text;
use crate::text_spec as spec;

pub mod laws;

verus! {

/// Whether the connector is of a kind that is used for built-in panels.
pub open spec fn is_internal(connector: Seq<char>) -> bool {
    let c = spec::lower(connector);
    spec::starts_with(c, "edp"@) || spec::starts_with(c, "lvds"@) || spec::starts_with(c, "dsi"@)
}

/// Whether the connector is of a kind that is used for built-in panels.
pub fn connector_looks_internal(connector: &str) -> (r: bool)
    ensures
        r == is_internal(connector@),
{
    let all = text::chars_of(connector);
    let low = text::lower(all.as_slice());
    let c = low.as_slice();
    text::starts_with(c, "edp") || text::starts_with(c, "lvds") || text::starts_with(c, "dsi")
}

/// The other names for a connector that differ in what follows the prefix.
pub open spec fn renamed(c: Seq<char>, prefix: Seq<char>, other: Seq<char>) -> Seq<Seq<char>> {
    match spec::strip_prefix(c, prefix) {
        Some(rest) => seq![other + rest],
        None => seq![],
    }
}

/// The names under which a connector may be known, in order, each once. The kernel tells kinds
/// of HDMI and DVI apart where Mutter does not.
pub open spec fn aliases(connector: Seq<char>) -> Seq<Seq<char>> {
    let c = spec::trim(connector);
    sorting::set_of_texts(
        seq![c] + renamed(c, "HDMI-"@, "HDMI-A-"@) + renamed(c, "DVI-"@, "DVI-D-"@) + renamed(
            c,
            "DVI-"@,
            "DVI-I-"@,
        ) + renamed(c, "HDMI-A-"@, "HDMI-"@),
    )
}

fn add_renamed(out: &mut Vec<String>, c: &[char], prefix: &str, other: &str)
    ensures
        spec::strings(final(out)@) == spec::strings(old(out)@) + renamed(c@, prefix@, other@),
{
    let ghost before = out@;
    if let Some(rest) = text::strip_prefix(c, prefix) {
        let mut s = String::from_str(other);
        text::push_chars(&mut s, rest);
        out.push(s);
        assert(spec::strings(out@) =~= spec::strings(before) + seq![s@]);
    } else {
        assert(spec::strings(before) + seq![] =~= spec::strings(before));
    }
}

/// The names under which a connector may be known.
pub fn connector_aliases(connector: &str) -> (r: Vec<String>)
    ensures
        spec::strings(r@) == aliases(connector@),
{
    let all = text::chars_of(connector);
    let c = text::trim(all.as_slice());
    let mut out: Vec<String> = Vec::new();
    out.push(text::string_of(c));
    assert(spec::strings(out@) =~= seq![c@]);
    add_renamed(&mut out, c, "HDMI-", "HDMI-A-");
    add_renamed(&mut out, c, "DVI-", "DVI-D-");
    add_renamed(&mut out, c, "DVI-", "DVI-I-");
    add_renamed(&mut out, c, "HDMI-A-", "HDMI-");
    sorting::sort_texts(out)
}

/// Whether the text is one of those in the list.
pub fn is_among(list: &Vec<String>, s: &[char]) -> (r: bool)
    ensures
        r == spec::strings(list@).contains(s@),
{
    let ghost all = spec::strings(list@);
    let mut i: usize = 0;
    while i < list.len()
        invariant
            i <= list@.len(),
            all == spec::strings(list@),
            forall|j: int| 0 <= j < i ==> #[trigger] all[j] != s@,
        decreases list.len() - i,
    {
        if text::is(s, list[i].as_str()) {
            assert(all[i as int] == s@);
            return true;
        }
        i = i + 1;
    }
    false
}

/// An entry of the kernel's list of display devices: the name of its directory, the name that
/// its link to an adapter points to, and the names of the files in it, as far as they are known.
#[derive(Debug)]
pub struct DrmEntry {
    pub name: String,
    pub ddc: Option<String>,
    pub files: Option<Vec<String>>,
}

/// The number of the bus in `i2c-N`.
pub open spec fn bus_number(name: Seq<char>) -> Option<u32> {
    match spec::strip_prefix(name, "i2c-"@) {
        Some(rest) => decimal::u32_value(rest),
        None => None,
    }
}

/// The least number of a bus among the names.
pub open spec fn least_bus(names: Seq<Seq<char>>) -> Option<u32>
    decreases names.len(),
{
    if names.len() == 0 {
        None
    } else {
        match (least_bus(names.drop_last()), bus_number(names.last())) {
            (Some(a), Some(b)) => Some(
                if b < a {
                    b
                } else {
                    a
                },
            ),
            (Some(a), None) => Some(a),
            (None, b) => b,
        }
    }
}

/// The bus of a device, where it is of a connector with one of the names: the one that the link
/// gives, else the least one among its files.
pub open spec fn entry_bus(e: DrmEntry, names: Seq<Seq<char>>) -> Option<u32> {
    match spec::split_once(e.name@, "-"@) {
        Some(t) => if spec::starts_with(e.name@, "card"@) && names.contains(t.1) {
            let linked = match e.ddc {
                Some(target) => bus_number(target@),
                None => None,
            };
            if linked is Some {
                linked
            } else {
                match e.files {
                    Some(files) => least_bus(spec::strings(files@)),
                    None => None,
                }
            }
        } else {
            None
        },
        None => None,
    }
}

/// The bus of the first device that has one.
pub open spec fn first_bus(entries: Seq<DrmEntry>, names: Seq<Seq<char>>) -> Option<u32>
    decreases entries.len(),
{
    if entries.len() == 0 {
        None
    } else if first_bus(entries.drop_last(), names) is Some {
        first_bus(entries.drop_last(), names)
    } else {
        entry_bus(entries.last(), names)
    }
}

fn bus_in(name: &[char]) -> (r: Option<u32>)
    ensures
        r == bus_number(name@),
{
    match text::strip_prefix(name, "i2c-") {
        Some(rest) => decimal::read_u32(rest),
        None => None,
    }
}

fn least_bus_in(names: &Vec<String>) -> (r: Option<u32>)
    ensures
        r == least_bus(spec::strings(names@)),
{
    let ghost all = spec::strings(names@);
    let mut r: Option<u32> = None;
    let mut i: usize = 0;
    while i < names.len()
        invariant
            i <= names@.len(),
            all == spec::strings(names@),
            r == least_bus(all.take(i as int)),
        decreases names.len() - i,
    {
        let s = text::chars_of(names[i].as_str());
        match (r, bus_in(s.as_slice())) {
            (Some(a), Some(b)) => {
                if b < a {
                    r = Some(b);
                }
            },
            (Some(_), None) => {},
            (None, b) => {
                r = b;
            },
        }
        i = i + 1;
        assert(all.take(i as int).drop_last() == all.take(i - 1));
    }
    assert(all.take(all.len() as int) == all);
    r
}

fn bus_of(e: &DrmEntry, names: &Vec<String>) -> (r: Option<u32>)
    ensures
        r == entry_bus(*e, spec::strings(names@)),
{
    let name = text::chars_of(e.name.as_str());
    let connector = match text::split_once(name.as_slice(), "-") {
        Some((_, c)) => c,
        None => return None,
    };
    if !text::starts_with(name.as_slice(), "card") || !is_among(names, connector) {
        return None;
    }
    if let Some(target) = &e.ddc {
        let t = text::chars_of(target.as_str());
        if let Some(bus) = bus_in(t.as_slice()) {
            return Some(bus);
        }
    }
    match &e.files {
        Some(files) => least_bus_in(files),
        None => None,
    }
}

/// The bus over which the monitor at the connector can be talked to.
pub fn find_ddc_i2c_bus_for_connector(entries: &Vec<DrmEntry>, connector: &str) -> (r: Option<u32>)
    ensures
        r == first_bus(entries@, aliases(connector@)),
{
    let names = connector_aliases(connector);
    let ghost ns = aliases(connector@);
    let mut i: usize = 0;
    while i < entries.len()
        invariant
            i <= entries@.len(),
            ns == spec::strings(names@),
            ns == aliases(connector@),
            first_bus(entries@.take(i as int), ns) is None,
        decreases entries.len() - i,
    {
        assert(entries@.take(i + 1).drop_last() == entries@.take(i as int));
        let bus = bus_of(&entries[i], &names);
        if bus.is_some() {
            proof {
                lemma_first_bus(entries@, ns, i + 1);
            }
            return bus;
        }
        i = i + 1;
    }
    assert(entries@.take(entries@.len() as int) == entries@);
    None
}

/// The bus over which a monitor is asked for its brightness: built-in panels are not asked, and
/// no monitor is where there is no program to ask with.
pub fn ddc_bus_to_ask(entries: &Vec<DrmEntry>, connector: &str, available: bool) -> (r: Option<u32>)
    ensures
        r == if !available || is_internal(connector@) {
            None
        } else {
            first_bus(entries@, aliases(connector@))
        },
{
    if !available || connector_looks_internal(connector) {
        None
    } else {
        find_ddc_i2c_bus_for_connector(entries, connector)
    }
}

proof fn lemma_first_bus(entries: Seq<DrmEntry>, names: Seq<Seq<char>>, k: int)
    requires
        0 <= k <= entries.len(),
        first_bus(entries.take(k), names) is Some,
    ensures
        first_bus(entries, names) == first_bus(entries.take(k), names),
    decreases entries.len(),
{
    if k < entries.len() {
        assert(entries.drop_last().take(k) == entries.take(k));
        lemma_first_bus(entries.drop_last(), names, k);
    } else {
        assert(entries.take(k) == entries);
    }
}

/// Whether the text has the form of a connector's name: a known kind, a hyphen, and a digit.
pub open spec fn is_connector_name(s: Seq<char>) -> bool {
    let t = spec::trim(s);
    let l = spec::lower(t);
    &&& spec::starts_with(l, "edp"@) || spec::starts_with(l, "dp"@) || spec::starts_with(l, "hdmi"@)
        || spec::starts_with(l, "dvi"@) || spec::starts_with(l, "vga"@) || spec::starts_with(
        l,
        "lvds"@,
    ) || spec::starts_with(l, "dsi"@)
    &&& exists|i: int| 0 <= i < t.len() && spec::is_digit(t[i])
    &&& t.contains('-')
}

/// Whether the text has the form of a connector's name.
pub fn looks_like_connector_name(s: &str) -> (r: bool)
    ensures
        r == is_connector_name(s@),
{
    let all = text::chars_of(s);
    let t = text::trim(all.as_slice());
    let low = text::lower(t);
    let l = low.as_slice();
    if !(text::starts_with(l, "edp") || text::starts_with(l, "dp") || text::starts_with(l, "hdmi")
        || text::starts_with(l, "dvi") || text::starts_with(l, "vga") || text::starts_with(
        l,
        "lvds",
    ) || text::starts_with(l, "dsi")) {
        return false;
    }
    let mut digit = false;
    let mut hyphen = false;
    let mut i: usize = 0;
    while i < t.len()
        invariant
            i <= t@.len(),
            digit == exists|j: int| 0 <= j < i && spec::is_digit(t@[j]),
            hyphen == exists|j: int| 0 <= j < i && t@[j] == '-',
        decreases t.len() - i,
    {
        if text::is_digit(t[i]) {
            digit = true;
        }
        if t[i] == '-' {
            hyphen = true;
        }
        i = i + 1;
    }
    digit && hyphen
}

/// The text under the name, where it is a connector's name.
pub open spec fn named_connector(d: Seq<DbusEntry>, name: Seq<char>) -> Option<Seq<char>> {
    match dbus::entry_value(d, name) {
        Some(DbusValue::Text(s)) => if is_connector_name(s@) {
            Some(s@)
        } else {
            None
        },
        _ => None,
    }
}

/// The connector that a field names: in a text of its own, or in one of its properties, of which
/// the last one counts.
pub open spec fn connector_in(f: DbusValue) -> Option<Seq<char>> {
    match f {
        DbusValue::Dict(d) => if named_connector(d@, "name"@) is Some {
            named_connector(d@, "name"@)
        } else if named_connector(d@, "display-name"@) is Some {
            named_connector(d@, "display-name"@)
        } else if named_connector(d@, "connector-name"@) is Some {
            named_connector(d@, "connector-name"@)
        } else {
            named_connector(d@, "connector"@)
        },
        DbusValue::Text(s) => if is_connector_name(s@) {
            Some(s@)
        } else {
            None
        },
        _ => None,
    }
}

/// The connector that the last of the fields names.
pub open spec fn last_connector(f: Seq<DbusValue>) -> Option<Seq<char>>
    decreases f.len(),
{
    if f.len() == 0 {
        None
    } else if connector_in(f.last()) is Some {
        connector_in(f.last())
    } else {
        last_connector(f.drop_last())
    }
}

/// The unsigned numbers among the fields.
pub open spec fn numbers(f: Seq<DbusValue>) -> Seq<u32>
    decreases f.len(),
{
    if f.len() == 0 {
        seq![]
    } else {
        match f.last() {
            DbusValue::U32(n) => numbers(f.drop_last()).push(n),
            _ => numbers(f.drop_last()),
        }
    }
}

/// The first number from the place on that is not zero.
pub open spec fn first_nonzero(s: Seq<u32>, i: int) -> Option<u32>
    decreases s.len() - i,
{
    if i >= s.len() {
        None
    } else if s[i] != 0 {
        Some(s[i])
    } else {
        first_nonzero(s, i + 1)
    }
}

/// The controller of an output of Mutter's resources, where the output is at a connector with
/// one of the names: the first number after the identifier that is not zero.
pub open spec fn output_crtc(v: DbusValue, names: Seq<Seq<char>>) -> Option<u32> {
    match v {
        DbusValue::Struct(f) => match last_connector(f@) {
            Some(name) => if names.contains(name) {
                first_nonzero(numbers(f@), 1)
            } else {
                None
            },
            None => None,
        },
        _ => None,
    }
}

/// The controller of the first output that has one.
pub open spec fn first_crtc(outputs: Seq<DbusValue>, names: Seq<Seq<char>>, i: int) -> Option<u32>
    decreases outputs.len() - i,
{
    if i >= outputs.len() {
        None
    } else if output_crtc(outputs[i], names) is Some {
        output_crtc(outputs[i], names)
    } else {
        first_crtc(outputs, names, i + 1)
    }
}

fn named_connector_of<'a>(d: &'a Vec<DbusEntry>, name: &str) -> (r: Option<&'a String>)
    ensures
        r is Some == named_connector(d@, name@) is Some,
        r matches Some(s) ==> named_connector(d@, name@) == Some(s@),
{
    match dbus::lookup(d, name) {
        Some(DbusValue::Text(s)) => if looks_like_connector_name(s.as_str()) {
            Some(s)
        } else {
            None
        },
        _ => None,
    }
}

fn connector_of<'a>(f: &'a DbusValue) -> (r: Option<&'a String>)
    ensures
        r is Some == connector_in(*f) is Some,
        r matches Some(s) ==> connector_in(*f) == Some(s@),
{
    match f {
        DbusValue::Dict(d) => {
            if let Some(s) = named_connector_of(d, "name") {
                return Some(s);
            }
            if let Some(s) = named_connector_of(d, "display-name") {
                return Some(s);
            }
            if let Some(s) = named_connector_of(d, "connector-name") {
                return Some(s);
            }
            named_connector_of(d, "connector")
        },
        DbusValue::Text(s) => if looks_like_connector_name(s.as_str()) {
            Some(s)
        } else {
            None
        },
        _ => None,
    }
}

fn crtc_of(v: &DbusValue, names: &Vec<String>) -> (r: Option<u32>)
    ensures
        r == output_crtc(*v, spec::strings(names@)),
{
    let fields = match v {
        DbusValue::Struct(f) => f,
        _ => return None,
    };
    let mut found: Option<&String> = None;
    let mut list: Vec<u32> = Vec::new();
    let mut i: usize = 0;
    while i < fields.len()
        invariant
            i <= fields@.len(),
            list@ == numbers(fields@.take(i as int)),
            found is Some == last_connector(fields@.take(i as int)) is Some,
            found matches Some(s) ==> last_connector(fields@.take(i as int)) == Some(s@),
        decreases fields.len() - i,
    {
        assert(fields@.take(i + 1).drop_last() == fields@.take(i as int));
        if let Some(s) = connector_of(&fields[i]) {
            found = Some(s);
        }
        if let DbusValue::U32(n) = &fields[i] {
            list.push(*n);
        }
        i = i + 1;
    }
    assert(fields@.take(fields@.len() as int) == fields@);
    let name = match found {
        Some(s) => s,
        None => return None,
    };
    let chars = text::chars_of(name.as_str());
    if !is_among(names, chars.as_slice()) {
        return None;
    }
    let mut k: usize = 1;
    while k < list.len()
        invariant
            1 <= k,
            output_crtc(*v, spec::strings(names@)) == first_nonzero(list@, 1),
            first_nonzero(list@, 1) == first_nonzero(list@, k as int),
        decreases list.len() - k,
    {
        if list[k] != 0 {
            return Some(list[k]);
        }
        k = k + 1;
    }
    None
}

/// The controller that drives the output at the connector, in Mutter's resources.
pub fn find_crtc_for_output(outputs: &Vec<DbusValue>, connector: &str) -> (r: Option<u32>)
    ensures
        r == first_crtc(outputs@, aliases(connector@), 0),
{
    let names = connector_aliases(connector);
    let ghost ns = aliases(connector@);
    let mut i: usize = 0;
    while i < outputs.len()
        invariant
            i <= outputs@.len(),
            ns == spec::strings(names@),
            ns == aliases(connector@),
            first_crtc(outputs@, ns, 0) == first_crtc(outputs@, ns, i as int),
        decreases outputs.len() - i,
    {
        let c = crtc_of(&outputs[i], &names);
        if c.is_some() {
            return c;
        }
        i = i + 1;
    }
    None
}

/// A connector is known under its own name, and its names are listed in order, each once.
pub proof fn connector_is_among_its_aliases(connector: Seq<char>)
    ensures
        aliases(connector).contains(spec::trim(connector)),
        forall|i: int, j: int|
            0 <= i < j < aliases(connector).len() ==> spec::le(
                #[trigger] aliases(connector)[i],
                #[trigger] aliases(connector)[j],
            ) && aliases(connector)[i] != aliases(connector)[j],
{
    let c = spec::trim(connector);
    let all = seq![c] + renamed(c, "HDMI-"@, "HDMI-A-"@) + renamed(c, "DVI-"@, "DVI-D-"@) + renamed(
        c,
        "DVI-"@,
        "DVI-I-"@,
    ) + renamed(c, "HDMI-A-"@, "HDMI-"@);
    sorting::sorted_texts_are_distinct(all);
    assert(all[0] == c);
    assert(all.contains(c));
}

/// What Mutter calls `HDMI-N` the kernel calls `HDMI-A-N`: each is among the other's names, where
/// `N` does not end with white space.
pub proof fn hdmi_names_are_aliases(n: Seq<char>)
    requires
        n.len() > 0 ==> !spec::is_space(n.last()),
    ensures
        aliases("HDMI-"@ + n).contains("HDMI-A-"@ + n),
        aliases("HDMI-A-"@ + n).contains("HDMI-"@ + n),
{
    let a = "HDMI-"@ + n;
    let b = "HDMI-A-"@ + n;
    reveal_strlit("HDMI-");
    reveal_strlit("HDMI-A-");
    assert("HDMI-"@[0] == 'H' && "HDMI-"@[4] == '-');
    assert("HDMI-A-"@[0] == 'H' && "HDMI-A-"@[6] == '-');
    assert(n.len() > 0 ==> a.last() == n.last() && b.last() == n.last());
    assert(n.len() == 0 ==> a.last() == '-' && b.last() == '-');
    spec::lemma_trim_solid(a);
    spec::lemma_trim_solid(b);
    assert(a.take("HDMI-"@.len() as int) =~= "HDMI-"@);
    assert(a.skip("HDMI-"@.len() as int) =~= n);
    assert(b.take("HDMI-A-"@.len() as int) =~= "HDMI-A-"@);
    assert(b.skip("HDMI-A-"@.len() as int) =~= n);
    let list_a = seq![a] + renamed(a, "HDMI-"@, "HDMI-A-"@) + renamed(a, "DVI-"@, "DVI-D-"@)
        + renamed(a, "DVI-"@, "DVI-I-"@) + renamed(a, "HDMI-A-"@, "HDMI-"@);
    assert(list_a[1] == b);
    assert(list_a.contains(b));
    sorting::sorted_texts_are_distinct(list_a);
    let list_b = seq![b] + renamed(b, "HDMI-"@, "HDMI-A-"@) + renamed(b, "DVI-"@, "DVI-D-"@)
        + renamed(b, "DVI-"@, "DVI-I-"@) + renamed(b, "HDMI-A-"@, "HDMI-"@);
    assert(list_b.last() == a);
    assert(list_b[list_b.len() - 1] == a);
    assert(list_b.contains(a));
    sorting::sorted_texts_are_distinct(list_b);
}

} // verus!
