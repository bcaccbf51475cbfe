//! Reading the descriptions that services on the bus give of their objects. They are XML, of
//! which only as much is understood as is needed to find names, types and directions.
use vstd::prelude::*;

use crate::sorting;
use crate::text;
use crate::text_spec as spec;

pub mod laws;

verus! {

/// The parts of the text that each follow an occurrence of the mark, up to the next one.
pub open spec fn parts_after(s: Seq<char>, mark: Seq<char>) -> Seq<Seq<char>> {
    spec::split(s, mark).skip(1)
}

/// The parts of the text that each follow an occurrence of the mark.
fn parts_of<'a>(s: &'a [char], mark: &str) -> (r: Vec<&'a [char]>)
    requires
        mark@.len() > 0,
    ensures
        spec::pieces(r@) == parts_after(s@, mark@),
{
    let all = text::split(s, mark);
    let ghost ps = spec::split(s@, mark@);
    proof {
        lemma_split_not_empty(s@, mark@);
    }
    let mut r: Vec<&'a [char]> = Vec::new();
    let mut i: usize = 1;
    assert(spec::pieces(r@) =~= ps.skip(1).take(0));
    while i < all.len()
        invariant
            1 <= i <= all@.len(),
            ps == spec::pieces(all@),
            spec::pieces(r@) == ps.skip(1).take(i - 1),
        decreases all.len() - i,
    {
        let ghost before = r@;
        r.push(all[i]);
        i = i + 1;
        assert(spec::pieces(r@) =~= spec::pieces(before).push(ps[i - 1]));
        assert(ps.skip(1).take(i - 1) =~= ps.skip(1).take(i - 2).push(ps[i - 1]));
    }
    assert(ps.skip(1).take(ps.len() - 1) =~= ps.skip(1));
    r
}

proof fn lemma_split_not_empty(s: Seq<char>, p: Seq<char>)
    requires
        p.len() > 0,
    ensures
        spec::split(s, p).len() > 0,
{
}

/// The names that stand at the beginning of the parts, up to a quote; empty ones do not count.
pub open spec fn leading_names(parts: Seq<Seq<char>>, quote: Seq<char>) -> Seq<Seq<char>>
    decreases parts.len(),
{
    if parts.len() == 0 {
        seq![]
    } else {
        let name = spec::until(parts.last(), quote);
        if name.len() > 0 {
            leading_names(parts.drop_last(), quote).push(name)
        } else {
            leading_names(parts.drop_last(), quote)
        }
    }
}

fn add_leading_names(out: &mut Vec<String>, parts: &Vec<&[char]>, quote: &str)
    ensures
        spec::strings(final(out)@) == spec::strings(old(out)@) + leading_names(
            spec::pieces(parts@),
            quote@,
        ),
{
    let ghost start = spec::strings(out@);
    let ghost ps = spec::pieces(parts@);
    let mut i: usize = 0;
    assert(start + leading_names(ps.take(0), quote@) =~= start);
    while i < parts.len()
        invariant
            i <= parts@.len(),
            ps == spec::pieces(parts@),
            spec::strings(out@) == start + leading_names(ps.take(i as int), quote@),
        decreases parts.len() - i,
    {
        let ghost before = out@;
        let name = text::until(parts[i], quote);
        proof {
            assert(ps.take(i + 1).drop_last() == ps.take(i as int));
            assert(ps.take(i + 1).last() == parts@[i as int]@);
        }
        if name.len() > 0 {
            out.push(text::string_of(name));
            assert(spec::strings(out@) =~= spec::strings(before).push(name@));
            assert(spec::strings(out@) =~= start + leading_names(ps.take(i + 1), quote@));
        }
        i = i + 1;
    }
    assert(ps.take(ps.len() as int) == ps);
}

/// The names of the interfaces of an object, in order, each once.
pub open spec fn interfaces(xml: Seq<char>) -> Seq<Seq<char>> {
    sorting::set_of_texts(leading_names(parts_after(xml, "interface name=\""@), "\""@))
}

/// The names of the interfaces of an object.
pub fn introspect_interfaces(xml: &str) -> (r: Vec<String>)
    ensures
        spec::strings(r@) == interfaces(xml@),
{
    proof {
        reveal_strlit("interface name=\"");
    }
    let s = text::chars_of(xml);
    let parts = parts_of(s.as_slice(), "interface name=\"");
    let mut out: Vec<String> = Vec::new();
    assert(spec::strings(out@) =~= seq![]);
    add_leading_names(&mut out, &parts, "\"");
    assert(spec::strings(out@) =~= leading_names(
        parts_after(xml@, "interface name=\""@),
        "\""@,
    ));
    sorting::sort_texts(out)
}

/// The names of the objects below an object, in order, each once.
pub open spec fn node_names(xml: Seq<char>) -> Seq<Seq<char>> {
    sorting::set_of_texts(
        leading_names(parts_after(xml, "node name=\""@), "\""@) + leading_names(
            parts_after(xml, "node name='"@),
            "'"@,
        ),
    )
}

/// The names of the objects below an object.
pub fn parse_node_names(xml: &str) -> (r: Vec<String>)
    ensures
        spec::strings(r@) == node_names(xml@),
{
    proof {
        reveal_strlit("node name=\"");
        reveal_strlit("node name='");
    }
    let s = text::chars_of(xml);
    let first = parts_of(s.as_slice(), "node name=\"");
    let second = parts_of(s.as_slice(), "node name='");
    let mut out: Vec<String> = Vec::new();
    assert(spec::strings(out@) =~= seq![]);
    add_leading_names(&mut out, &first, "\"");
    add_leading_names(&mut out, &second, "'");
    assert(spec::strings(out@) =~= leading_names(parts_after(xml@, "node name=\""@), "\""@)
        + leading_names(parts_after(xml@, "node name='"@), "'"@));
    sorting::sort_texts(out)
}

/// The names and descriptions of the interfaces in the parts.
pub open spec fn blocks(parts: Seq<Seq<char>>, quote: Seq<char>) -> Seq<(Seq<char>, Seq<char>)>
    decreases parts.len(),
{
    if parts.len() == 0 {
        seq![]
    } else {
        let name = spec::until(parts.last(), quote);
        if name.len() > 0 {
            blocks(parts.drop_last(), quote).push(
                (name, spec::until(parts.last(), "</interface>"@)),
            )
        } else {
            blocks(parts.drop_last(), quote)
        }
    }
}

/// Whether a pair with the name is in the list.
pub open spec fn has_name(s: Seq<(Seq<char>, Seq<char>)>, name: Seq<char>) -> bool {
    exists|i: int| 0 <= i < s.len() && (#[trigger] s[i]).0 == name
}

/// The pairs, each name where it comes first.
pub open spec fn first_of_each(s: Seq<(Seq<char>, Seq<char>)>) -> Seq<(Seq<char>, Seq<char>)>
    decreases s.len(),
{
    if s.len() == 0 {
        seq![]
    } else if has_name(first_of_each(s.drop_last()), s.last().0) {
        first_of_each(s.drop_last())
    } else {
        first_of_each(s.drop_last()).push(s.last())
    }
}

/// The interfaces of an object: the name of each, and what describes it.
pub open spec fn interface_blocks(xml: Seq<char>) -> Seq<(Seq<char>, Seq<char>)> {
    first_of_each(
        blocks(parts_after(xml, "interface name=\""@), "\""@) + blocks(
            parts_after(xml, "interface name='"@),
            "'"@,
        ),
    )
}

fn add_blocks(out: &mut Vec<(String, String)>, parts: &Vec<&[char]>, quote: &str)
    ensures
        sorting::pairs(final(out)@) == sorting::pairs(old(out)@) + blocks(
            spec::pieces(parts@),
            quote@,
        ),
{
    let ghost start = sorting::pairs(out@);
    let ghost ps = spec::pieces(parts@);
    let mut i: usize = 0;
    assert(start + blocks(ps.take(0), quote@) =~= start);
    while i < parts.len()
        invariant
            i <= parts@.len(),
            ps == spec::pieces(parts@),
            sorting::pairs(out@) == start + blocks(ps.take(i as int), quote@),
        decreases parts.len() - i,
    {
        let ghost before = out@;
        let name = text::until(parts[i], quote);
        proof {
            assert(ps.take(i + 1).drop_last() == ps.take(i as int));
            assert(ps.take(i + 1).last() == parts@[i as int]@);
        }
        if name.len() > 0 {
            let block = text::until(parts[i], "</interface>");
            out.push((text::string_of(name), text::string_of(block)));
            assert(sorting::pairs(out@) =~= sorting::pairs(before).push((name@, block@)));
            assert(sorting::pairs(out@) =~= start + blocks(ps.take(i + 1), quote@));
        }
        i = i + 1;
    }
    assert(ps.take(ps.len() as int) == ps);
}

/// The interfaces of an object: the name of each, and what describes it.
pub fn parse_interface_blocks(xml: &str) -> (r: Vec<(String, String)>)
    ensures
        sorting::pairs(r@) == interface_blocks(xml@),
{
    proof {
        reveal_strlit("interface name=\"");
        reveal_strlit("interface name='");
    }
    let s = text::chars_of(xml);
    let first = parts_of(s.as_slice(), "interface name=\"");
    let second = parts_of(s.as_slice(), "interface name='");
    let mut found: Vec<(String, String)> = Vec::new();
    assert(sorting::pairs(found@) =~= seq![]);
    add_blocks(&mut found, &first, "\"");
    add_blocks(&mut found, &second, "'");
    let ghost all = blocks(parts_after(xml@, "interface name=\""@), "\""@) + blocks(
        parts_after(xml@, "interface name='"@),
        "'"@,
    );
    assert(sorting::pairs(found@) =~= all);
    let mut r: Vec<(String, String)> = Vec::new();
    let mut i: usize = 0;
    assert(sorting::pairs(r@) =~= first_of_each(all.take(0)));
    while i < found.len()
        invariant
            i <= found@.len(),
            all == sorting::pairs(found@),
            sorting::pairs(r@) == first_of_each(all.take(i as int)),
        decreases found.len() - i,
    {
        let ghost before = r@;
        let ghost rs = sorting::pairs(r@);
        let mut known = false;
        let mut k: usize = 0;
        while k < r.len() && !known
            invariant
                k <= r@.len(),
                i < found@.len(),
                rs == sorting::pairs(r@),
                known == exists|j: int|
                    0 <= j < k && (#[trigger] rs[j]).0 == found@[i as int].0@,
            decreases r.len() - k,
        {
            if text::same_str(r[k].0.as_str(), found[i].0.as_str()) {
                known = true;
                assert(rs[k as int].0 == found@[i as int].0@);
            }
            k = k + 1;
        }
        assert(all.take(i + 1).drop_last() == all.take(i as int));
        assert(all.take(i + 1).last() == all[i as int]);
        assert(known == has_name(rs, all[i as int].0));
        if !known {
            r.push((found[i].0.clone(), found[i].1.clone()));
            assert(sorting::pairs(r@) =~= sorting::pairs(before).push(all[i as int]));
        }
        i = i + 1;
    }
    assert(all.take(all.len() as int) == all);
    r
}

/// Whether a name is about the brightness of a screen.
pub open spec fn about_brightness(name: Seq<char>) -> bool {
    let n = spec::lower(name);
    (spec::contains(n, "bright"@) || spec::contains(n, "percent"@) || spec::contains(
        n,
        "backlight"@,
    )) && !(spec::contains(n, "kbd"@) || spec::contains(n, "keyboard"@))
}

fn is_about_brightness(name: &[char]) -> (r: bool)
    ensures
        r == about_brightness(name@),
{
    let low = text::lower(name);
    let n = low.as_slice();
    (text::contains(n, "bright") || text::contains(n, "percent") || text::contains(n, "backlight"))
        && !(text::contains(n, "kbd") || text::contains(n, "keyboard"))
}

/// Whether a name is about the brightness of a screen.
pub fn is_brightness_like(name: &str) -> (r: bool)
    ensures
        r == about_brightness(name@),
{
    let s = text::chars_of(name);
    is_about_brightness(s.as_slice())
}

/// The value of an attribute that is given in double quotes, else in single ones.
pub open spec fn attribute(s: Seq<char>, double: Seq<char>, single: Seq<char>) -> Option<Seq<char>> {
    match spec::second_piece(s, double) {
        Some(t) => Some(spec::until(t, "\""@)),
        None => match spec::second_piece(s, single) {
            Some(t) => Some(spec::until(t, "'"@)),
            None => None,
        },
    }
}

fn attribute_of<'a>(s: &'a [char], double: &str, single: &str) -> (r: Option<&'a [char]>)
    ensures
        r is Some == attribute(s@, double@, single@) is Some,
        r matches Some(t) ==> attribute(s@, double@, single@) == Some(t@),
{
    match text::second_piece(s, double) {
        Some(t) => Some(text::until(t, "\"")),
        None => match text::second_piece(s, single) {
            Some(t) => Some(text::until(t, "'")),
            None => None,
        },
    }
}

/// The type that an attribute gives.
pub open spec fn type_of(s: Seq<char>) -> Option<Seq<char>> {
    attribute(s, "type=\""@, "type='"@)
}

/// The type of an argument that is passed in; empty ones do not count.
pub open spec fn in_type(arg: Seq<char>) -> Option<Seq<char>> {
    if spec::contains(arg, "direction=\"out\""@) || spec::contains(arg, "direction='out'"@) {
        None
    } else {
        match type_of(arg) {
            Some(t) => if t.len() > 0 {
                Some(t)
            } else {
                None
            },
            None => None,
        }
    }
}

/// The types of the arguments that are passed in.
pub open spec fn in_types(args: Seq<Seq<char>>) -> Seq<Seq<char>>
    decreases args.len(),
{
    if args.len() == 0 {
        seq![]
    } else {
        match in_type(args.last()) {
            Some(t) => in_types(args.drop_last()).push(t),
            None => in_types(args.drop_last()),
        }
    }
}

/// The types of the arguments that a method takes.
pub open spec fn method_types(part: Seq<char>) -> Seq<Seq<char>> {
    in_types(parts_after(spec::until(part, "</method>"@), "<arg "@))
}

fn method_types_of<'a>(part: &'a [char]) -> (r: Vec<&'a [char]>)
    ensures
        spec::pieces(r@) == method_types(part@),
{
    proof {
        reveal_strlit("<arg ");
    }
    let block = text::until(part, "</method>");
    let args = parts_of(block, "<arg ");
    let ghost ps = spec::pieces(args@);
    let mut r: Vec<&'a [char]> = Vec::new();
    let mut i: usize = 0;
    assert(spec::pieces(r@) =~= in_types(ps.take(0)));
    while i < args.len()
        invariant
            i <= args@.len(),
            ps == spec::pieces(args@),
            spec::pieces(r@) == in_types(ps.take(i as int)),
        decreases args.len() - i,
    {
        let ghost before = r@;
        let arg = args[i];
        proof {
            assert(ps.take(i + 1).drop_last() == ps.take(i as int));
            assert(ps.take(i + 1).last() == arg@);
        }
        if !text::contains(arg, "direction=\"out\"") && !text::contains(arg, "direction='out'") {
            if let Some(t) = attribute_of(arg, "type=\"", "type='") {
                if t.len() > 0 {
                    r.push(t);
                    assert(spec::pieces(r@) =~= spec::pieces(before).push(t@));
                }
            }
        }
        i = i + 1;
    }
    assert(ps.take(ps.len() as int) == ps);
    r
}

/// Whether a value of the type can be given: one of the numbers.
pub open spec fn is_number_type(t: Seq<char>) -> bool {
    t == "y"@ || t == "n"@ || t == "q"@ || t == "i"@ || t == "u"@ || t == "d"@
}

fn has_number_type(t: &[char]) -> (r: bool)
    ensures
        r == is_number_type(t@),
{
    text::is(t, "y") || text::is(t, "n") || text::is(t, "q") || text::is(t, "i") || text::is(t, "u")
        || text::is(t, "d")
}

/// The setter that a part describes: a method whose name begins with `Set` and is about
/// brightness, and which takes one number.
pub open spec fn setter(part: Seq<char>, quote: Seq<char>) -> Option<(Seq<char>, Seq<char>)> {
    let name = spec::until(part, quote);
    let types = method_types(part);
    if spec::starts_with(name, "Set"@) && about_brightness(name) && types.len() == 1
        && is_number_type(types[0]) {
        Some((name, types[0]))
    } else {
        None
    }
}

pub open spec fn setters(parts: Seq<Seq<char>>, quote: Seq<char>) -> Seq<(Seq<char>, Seq<char>)>
    decreases parts.len(),
{
    if parts.len() == 0 {
        seq![]
    } else {
        match setter(parts.last(), quote) {
            Some(p) => setters(parts.drop_last(), quote).push(p),
            None => setters(parts.drop_last(), quote),
        }
    }
}

/// The setters of an interface: the name of each and the type that it takes, in order, each
/// once.
pub open spec fn setter_methods(block: Seq<char>) -> Seq<(Seq<char>, Seq<char>)> {
    sorting::set_of_pairs(
        setters(parts_after(block, "<method name=\""@), "\""@) + setters(
            parts_after(block, "<method name='"@),
            "'"@,
        ),
    )
}

fn add_setters(out: &mut Vec<(String, String)>, parts: &Vec<&[char]>, quote: &str)
    ensures
        sorting::pairs(final(out)@) == sorting::pairs(old(out)@) + setters(
            spec::pieces(parts@),
            quote@,
        ),
{
    let ghost start = sorting::pairs(out@);
    let ghost ps = spec::pieces(parts@);
    let mut i: usize = 0;
    assert(start + setters(ps.take(0), quote@) =~= start);
    while i < parts.len()
        invariant
            i <= parts@.len(),
            ps == spec::pieces(parts@),
            sorting::pairs(out@) == start + setters(ps.take(i as int), quote@),
        decreases parts.len() - i,
    {
        let ghost before = out@;
        let part = parts[i];
        let name = text::until(part, quote);
        proof {
            assert(ps.take(i + 1).drop_last() == ps.take(i as int));
            assert(ps.take(i + 1).last() == part@);
        }
        if text::starts_with(name, "Set") && is_about_brightness(name) {
            let types = method_types_of(part);
            assert(spec::pieces(types@).len() == types@.len());
            if types.len() == 1 {
                assert(spec::pieces(types@)[0] == types@[0]@);
                if has_number_type(types[0]) {
                    out.push((text::string_of(name), text::string_of(types[0])));
                    assert(sorting::pairs(out@) =~= sorting::pairs(before).push(
                        (name@, types@[0]@),
                    ));
                    assert(sorting::pairs(out@) =~= start + setters(ps.take(i + 1), quote@));
                }
            }
        }
        i = i + 1;
    }
    assert(ps.take(ps.len() as int) == ps);
}

/// The setters of an interface: the name of each and the type that it takes.
pub fn parse_setter_methods_from_iface(block: &str) -> (r: Vec<(String, String)>)
    ensures
        sorting::pairs(r@) == setter_methods(block@),
{
    proof {
        reveal_strlit("<method name=\"");
        reveal_strlit("<method name='");
    }
    let s = text::chars_of(block);
    let first = parts_of(s.as_slice(), "<method name=\"");
    let second = parts_of(s.as_slice(), "<method name='");
    let mut out: Vec<(String, String)> = Vec::new();
    assert(sorting::pairs(out@) =~= seq![]);
    add_setters(&mut out, &first, "\"");
    add_setters(&mut out, &second, "'");
    assert(sorting::pairs(out@) =~= setters(parts_after(block@, "<method name=\""@), "\""@)
        + setters(parts_after(block@, "<method name='"@), "'"@));
    sorting::sort_pairs(out)
}

/// Whether a property can be written.
pub open spec fn is_writable(part: Seq<char>) -> bool {
    spec::contains(part, "access=\"readwrite\""@) || spec::contains(part, "access='readwrite'"@)
        || spec::contains(part, "access=\"write\""@) || spec::contains(part, "access='write'"@)
}

/// The property that a part describes, where it can be written, is about brightness, and is a
/// number.
pub open spec fn writable(part: Seq<char>) -> Option<(Seq<char>, Seq<char>)> {
    if !is_writable(part) {
        None
    } else {
        match (attribute(part, "name=\""@, "name='"@), type_of(part)) {
            (Some(name), Some(t)) => if name.len() > 0 && about_brightness(name) && is_number_type(
                t,
            ) {
                Some((name, t))
            } else {
                None
            },
            _ => None,
        }
    }
}

pub open spec fn writables(parts: Seq<Seq<char>>) -> Seq<(Seq<char>, Seq<char>)>
    decreases parts.len(),
{
    if parts.len() == 0 {
        seq![]
    } else {
        match writable(parts.last()) {
            Some(p) => writables(parts.drop_last()).push(p),
            None => writables(parts.drop_last()),
        }
    }
}

/// The properties of an interface that set a brightness: the name and the type of each, in
/// order, each once.
pub open spec fn writable_props(block: Seq<char>) -> Seq<(Seq<char>, Seq<char>)> {
    sorting::set_of_pairs(writables(parts_after(block, "<property "@)))
}

/// The properties of an interface that set a brightness: the name and the type of each.
pub fn parse_writable_props_from_iface(block: &str) -> (r: Vec<(String, String)>)
    ensures
        sorting::pairs(r@) == writable_props(block@),
{
    proof {
        reveal_strlit("<property ");
    }
    let s = text::chars_of(block);
    let parts = parts_of(s.as_slice(), "<property ");
    let ghost ps = spec::pieces(parts@);
    let mut out: Vec<(String, String)> = Vec::new();
    let mut i: usize = 0;
    assert(sorting::pairs(out@) =~= writables(ps.take(0)));
    while i < parts.len()
        invariant
            i <= parts@.len(),
            ps == spec::pieces(parts@),
            sorting::pairs(out@) == writables(ps.take(i as int)),
        decreases parts.len() - i,
    {
        let ghost before = out@;
        let part = parts[i];
        proof {
            assert(ps.take(i + 1).drop_last() == ps.take(i as int));
            assert(ps.take(i + 1).last() == part@);
        }
        if text::contains(part, "access=\"readwrite\"") || text::contains(
            part,
            "access='readwrite'",
        ) || text::contains(part, "access=\"write\"") || text::contains(part, "access='write'") {
            let name = attribute_of(part, "name=\"", "name='");
            let ty = attribute_of(part, "type=\"", "type='");
            if let (Some(name), Some(ty)) = (name, ty) {
                if name.len() > 0 && is_about_brightness(name) && has_number_type(ty) {
                    out.push((text::string_of(name), text::string_of(ty)));
                    assert(sorting::pairs(out@) =~= sorting::pairs(before).push((name@, ty@)));
                }
            }
        }
        i = i + 1;
    }
    assert(ps.take(ps.len() as int) == ps);
    sorting::sort_pairs(out)
}

/// The texts one after the other.
pub open spec fn run_together(s: Seq<Seq<char>>) -> Seq<char>
    decreases s.len(),
{
    if s.len() == 0 {
        seq![]
    } else {
        run_together(s.drop_last()) + s.last()
    }
}

/// Whether a method of the login manager sets a brightness.
pub open spec fn sets_brightness(name: Seq<char>) -> bool {
    let n = spec::lower(name);
    n == "setbrightness"@ || (spec::starts_with(n, "set"@) && spec::contains(n, "bright"@))
}

/// The name at the beginning of a part, up to a quote of either kind.
pub open spec fn quoted_name(part: Seq<char>) -> Seq<char> {
    spec::until(spec::until(part, "\""@), "'"@)
}

/// The method that a part describes, where it sets a brightness: its name, and its types one
/// after the other.
pub open spec fn signature(part: Seq<char>) -> Option<(Seq<char>, Seq<char>)> {
    let name = quoted_name(part);
    if name.len() > 0 && sets_brightness(name) {
        Some((name, run_together(method_types(part))))
    } else {
        None
    }
}

pub open spec fn signatures(parts: Seq<Seq<char>>) -> Seq<(Seq<char>, Seq<char>)>
    decreases parts.len(),
{
    if parts.len() == 0 {
        seq![]
    } else {
        match signature(parts.last()) {
            Some(p) => signatures(parts.drop_last()).push(p),
            None => signatures(parts.drop_last()),
        }
    }
}

/// The methods of an interface that set a brightness, in order, each once.
pub open spec fn brightness_methods(block: Seq<char>) -> Seq<(Seq<char>, Seq<char>)> {
    sorting::set_of_pairs(
        signatures(parts_after(block, "<method name=\""@)) + signatures(
            parts_after(block, "<method name='"@),
        ),
    )
}

fn add_signatures(out: &mut Vec<(String, String)>, parts: &Vec<&[char]>)
    ensures
        sorting::pairs(final(out)@) == sorting::pairs(old(out)@) + signatures(
            spec::pieces(parts@),
        ),
{
    let ghost start = sorting::pairs(out@);
    let ghost ps = spec::pieces(parts@);
    let mut i: usize = 0;
    assert(start + signatures(ps.take(0)) =~= start);
    while i < parts.len()
        invariant
            i <= parts@.len(),
            ps == spec::pieces(parts@),
            sorting::pairs(out@) == start + signatures(ps.take(i as int)),
        decreases parts.len() - i,
    {
        let ghost before = out@;
        let part = parts[i];
        let name = text::until(text::until(part, "\""), "'");
        proof {
            assert(ps.take(i + 1).drop_last() == ps.take(i as int));
            assert(ps.take(i + 1).last() == part@);
        }
        let low = text::lower(name);
        let n = low.as_slice();
        if name.len() > 0 && (text::is(n, "setbrightness") || (text::starts_with(n, "set")
            && text::contains(n, "bright"))) {
            let types = method_types_of(part);
            let sig = together(&types);
            out.push((text::string_of(name), sig));
            assert(sorting::pairs(out@) =~= sorting::pairs(before).push((name@, sig@)));
            assert(sorting::pairs(out@) =~= start + signatures(ps.take(i + 1)));
        }
        i = i + 1;
    }
    assert(ps.take(ps.len() as int) == ps);
}

fn together(types: &Vec<&[char]>) -> (r: String)
    ensures
        r@ == run_together(spec::pieces(types@)),
{
    let ghost ts = spec::pieces(types@);
    let mut r = String::new();
    let mut i: usize = 0;
    while i < types.len()
        invariant
            i <= types@.len(),
            ts == spec::pieces(types@),
            r@ == run_together(ts.take(i as int)),
        decreases types.len() - i,
    {
        text::push_chars(&mut r, types[i]);
        i = i + 1;
        assert(ts.take(i as int).drop_last() == ts.take(i - 1));
    }
    assert(ts.take(ts.len() as int) == ts);
    r
}

/// The methods of an interface that set a brightness: the name of each, and its types one after
/// the other.
pub fn parse_brightness_methods(block: &str) -> (r: Vec<(String, String)>)
    ensures
        sorting::pairs(r@) == brightness_methods(block@),
{
    proof {
        reveal_strlit("<method name=\"");
        reveal_strlit("<method name='");
    }
    let s = text::chars_of(block);
    let first = parts_of(s.as_slice(), "<method name=\"");
    let second = parts_of(s.as_slice(), "<method name='");
    let mut out: Vec<(String, String)> = Vec::new();
    assert(sorting::pairs(out@) =~= seq![]);
    add_signatures(&mut out, &first);
    add_signatures(&mut out, &second);
    assert(sorting::pairs(out@) =~= signatures(parts_after(block@, "<method name=\""@))
        + signatures(parts_after(block@, "<method name='"@)));
    sorting::sort_pairs(out)
}

/// Each interface of an object is listed once.
pub proof fn interfaces_are_listed_once(s: Seq<(Seq<char>, Seq<char>)>, i: int, j: int)
    requires
        0 <= i < j < first_of_each(s).len(),
    ensures
        first_of_each(s)[i].0 != first_of_each(s)[j].0,
    decreases s.len(),
{
    let before = first_of_each(s.drop_last());
    if j < before.len() {
        interfaces_are_listed_once(s.drop_last(), i, j);
    } else {
        assert(before[i] == first_of_each(s)[i]);
        if before[i].0 == s.last().0 {
            assert(has_name(before, s.last().0));
        }
    }
}

} // verus!
