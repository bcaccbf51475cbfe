//! What holds of every description of an object.
use vstd::prelude::*;

use crate::gnome::introspect::{
    about_brightness, attribute, blocks, first_of_each, has_name, in_type, in_types, is_number_type,
    is_writable, leading_names, method_types, parts_after, quoted_name, run_together,
    sets_brightness, setter, setters, signature, signatures, type_of, writable, writables,
};
use crate::text_spec as spec;

verus! {

/// Every mark begins a part, which goes up to the next mark; what stands before the first mark
/// belongs to none.
pub proof fn parts_follow_the_marks(pre: Seq<char>, mark: Seq<char>, rest: Seq<char>)
    requires
        mark.len() > 0,
        forall|i: int| 0 <= i < pre.len() ==> !#[trigger] spec::occurs_at(pre + mark + rest, mark, i),
    ensures
        parts_after(pre + mark + rest, mark) == seq![spec::until(rest, mark)] + parts_after(rest, mark),
        forall|s: Seq<char>|
            !#[trigger] spec::contains(s, mark) ==> parts_after(s, mark) == Seq::<Seq<char>>::empty(),
{
    let s = pre + mark + rest;
    spec::first_occurrence_splits(pre, mark, rest);
    assert(spec::split(s, mark) == seq![pre] + spec::split(rest, mark));
    assert(parts_after(s, mark) =~= spec::split(rest, mark));
    match spec::split_once(rest, mark) {
        Some(t) => {
            assert(spec::split(rest, mark) == seq![t.0] + spec::split(t.1, mark));
            assert(spec::split(rest, mark)[0] == spec::until(rest, mark));
        },
        None => {
            assert(spec::split(rest, mark) == seq![rest]);
        },
    }
    assert(spec::split(rest, mark) =~= seq![spec::until(rest, mark)] + parts_after(rest, mark));
    assert forall|s: Seq<char>| !#[trigger] spec::contains(s, mark) implies parts_after(s, mark) == Seq::<
        Seq<char>,
    >::empty() by {
        assert(spec::split(s, mark) == seq![s]);
        assert(parts_after(s, mark) =~= Seq::<Seq<char>>::empty());
    }
}

/// The name at the beginning of a part goes up to the quote, and is listed after those of the
/// parts before it; an empty name is not listed.
pub proof fn names_stand_before_the_quote(
    parts: Seq<Seq<char>>,
    name: Seq<char>,
    quote: char,
    rest: Seq<char>,
)
    requires
        !name.contains(quote),
    ensures
        ({
            let part = name + seq![quote] + rest;
            &&& name.len() > 0 ==> leading_names(parts.push(part), seq![quote]) == leading_names(
                parts,
                seq![quote],
            ).push(name)
            &&& name.len() == 0 ==> leading_names(parts.push(part), seq![quote]) == leading_names(
                parts,
                seq![quote],
            )
            &&& name.len() > 0 ==> blocks(parts.push(part), seq![quote]) == blocks(
                parts,
                seq![quote],
            ).push((name, spec::until(part, "</interface>"@)))
            &&& name.len() == 0 ==> blocks(parts.push(part), seq![quote]) == blocks(parts, seq![quote])
        }),
        leading_names(Seq::empty(), seq![quote]).len() == 0,
        blocks(Seq::empty(), seq![quote]).len() == 0,
{
    let part = name + seq![quote] + rest;
    spec::lemma_split_at(name, quote, rest);
    assert(parts.push(part).drop_last() =~= parts);
    assert(spec::until(part, seq![quote]) == name);
}

/// Of the pairs with one name, the first one is kept; every name is kept, and nothing else.
pub proof fn first_pairs_are_kept(s: Seq<(Seq<char>, Seq<char>)>, k: int)
    requires
        0 <= k < s.len(),
    ensures
        (forall|i: int| 0 <= i < k ==> (#[trigger] s[i]).0 != s[k].0) ==> first_of_each(s).contains(s[k]),
        has_name(first_of_each(s), s[k].0),
        forall|p: (Seq<char>, Seq<char>)| #[trigger] first_of_each(s).contains(p) ==> s.contains(p),
    decreases s.len(),
{
    let t = s.drop_last();
    let f = first_of_each(t);
    let g = first_of_each(s);
    lemma_only_given_pairs(s);
    if k < t.len() {
        assert(t[k] == s[k]);
        first_pairs_are_kept(t, k);
        let i = choose|i: int| 0 <= i < f.len() && (#[trigger] f[i]).0 == s[k].0;
        assert(g[i] == f[i]);
        if forall|i: int| 0 <= i < k ==> (#[trigger] s[i]).0 != s[k].0 {
            assert forall|i: int| 0 <= i < k implies (#[trigger] t[i]).0 != t[k].0 by {
                assert(s[i].0 != s[k].0);
            }
            let j = choose|j: int| 0 <= j < f.len() && f[j] == s[k];
            assert(g[j] == s[k]);
        }
    } else {
        assert(s.last() == s[k]);
        if has_name(f, s[k].0) {
            let i = choose|i: int| 0 <= i < f.len() && (#[trigger] f[i]).0 == s[k].0;
            assert(g[i] == f[i]);
            if forall|i: int| 0 <= i < k ==> (#[trigger] s[i]).0 != s[k].0 {
                lemma_only_given_pairs(t);
                assert(f.contains(f[i]));
                let j = choose|j: int| 0 <= j < t.len() && t[j] == f[i];
                assert(s[j].0 == s[k].0);
            }
        } else {
            assert(g[f.len() as int] == s[k]);
        }
    }
}

proof fn lemma_only_given_pairs(s: Seq<(Seq<char>, Seq<char>)>)
    ensures
        forall|p: (Seq<char>, Seq<char>)| #[trigger] first_of_each(s).contains(p) ==> s.contains(p),
    decreases s.len(),
{
    if s.len() > 0 {
        let t = s.drop_last();
        let f = first_of_each(t);
        lemma_only_given_pairs(t);
        assert forall|p: (Seq<char>, Seq<char>)| #[trigger] first_of_each(s).contains(p) implies s.contains(
            p,
        ) by {
            let i = choose|i: int| 0 <= i < first_of_each(s).len() && first_of_each(s)[i] == p;
            if i < f.len() {
                assert(f[i] == p);
                assert(f.contains(p));
                let j = choose|j: int| 0 <= j < t.len() && t[j] == p;
                assert(s[j] == p);
            } else {
                assert(s[s.len() - 1] == p);
            }
        }
    }
}

/// A name is about the brightness of a screen if it speaks of brightness, a percentage or the
/// backlight, in any letters, and not of the keyboard.
pub proof fn names_tell_the_subject(name: Seq<char>)
    ensures
        ({
            let n = spec::lower(name);
            &&& spec::contains(n, "kbd"@) || spec::contains(n, "keyboard"@) ==> !about_brightness(name)
            &&& !spec::contains(n, "kbd"@) && !spec::contains(n, "keyboard"@) ==> (about_brightness(name)
                <==> spec::contains(n, "bright"@) || spec::contains(n, "percent"@) || spec::contains(
                n,
                "backlight"@,
            ))
            &&& about_brightness(n) == about_brightness(name)
            &&& n == "setbrightness"@ ==> sets_brightness(name)
            &&& sets_brightness(name) ==> spec::starts_with(n, "set"@) && spec::contains(n, "bright"@)
            &&& spec::starts_with(n, "set"@) && spec::contains(n, "bright"@) ==> sets_brightness(name)
        }),
{
    assert(spec::lower(spec::lower(name)) =~= spec::lower(name));
    let w = "setbrightness"@;
    reveal_strlit("setbrightness");
    reveal_strlit("set");
    reveal_strlit("bright");
    assert(w.take(3) =~= "set"@);
    assert(w.subrange(3, 9) =~= "bright"@);
    spec::lemma_find_from(w, "bright"@, 0);
    assert(spec::occurs_at(w, "bright"@, 3));
}

/// The value of an attribute stands between its quotes; double ones count before single ones.
pub proof fn attributes_stand_between_quotes(
    pre: Seq<char>,
    double: Seq<char>,
    single: Seq<char>,
    value: Seq<char>,
    rest: Seq<char>,
    s: Seq<char>,
)
    requires
        !value.contains('"'),
        s == pre + double + (value + seq!['"'] + rest),
        forall|i: int| 0 <= i < pre.len() ==> !#[trigger] spec::occurs_at(s, double, i),
        !spec::contains(value + seq!['"'] + rest, double),
    ensures
        attribute(s, double, single) == Some(value),
{
    reveal_strlit("\"");
    assert("\""@ =~= seq!['"']);
    let t = value + seq!['"'] + rest;
    spec::first_occurrence_splits(pre, double, t);
    assert(spec::second_piece(s, double) == Some(t));
    spec::lemma_split_at(value, '"', rest);
}

/// Where an attribute is not given in double quotes, its value stands between single ones; where
/// it is not given at all, it has none.
pub proof fn attributes_may_stand_between_single_quotes(
    pre: Seq<char>,
    double: Seq<char>,
    single: Seq<char>,
    value: Seq<char>,
    rest: Seq<char>,
    s: Seq<char>,
)
    requires
        !spec::contains(s, double),
    ensures
        !value.contains('\'') && s == pre + single + (value + seq!['\''] + rest) && (forall|i: int|
            0 <= i < pre.len() ==> !#[trigger] spec::occurs_at(s, single, i)) && !spec::contains(
            value + seq!['\''] + rest,
            single,
        ) ==> attribute(s, double, single) == Some(value),
        !spec::contains(s, single) ==> attribute(s, double, single) is None,
{
    reveal_strlit("'");
    assert("'"@ =~= seq!['\'']);
    if !value.contains('\'') && s == pre + single + (value + seq!['\''] + rest) && (forall|i: int|
        0 <= i < pre.len() ==> !#[trigger] spec::occurs_at(s, single, i)) && !spec::contains(
        value + seq!['\''] + rest,
        single,
    ) {
        let t = value + seq!['\''] + rest;
        spec::first_occurrence_splits(pre, single, t);
        assert(spec::second_piece(s, single) == Some(t));
        spec::lemma_split_at(value, '\'', rest);
    }
}

/// An argument that is passed out does not count, and one that is passed in counts with its type,
/// in the order of the arguments.
pub proof fn arguments_that_are_passed_in_count(args: Seq<Seq<char>>, arg: Seq<char>)
    ensures
        spec::contains(arg, "direction=\"out\""@) || spec::contains(arg, "direction='out'"@) ==> in_types(
            args.push(arg),
        ) == in_types(args),
        !spec::contains(arg, "direction=\"out\""@) && !spec::contains(arg, "direction='out'"@) ==> (type_of(
            arg,
        ) matches Some(t) ==> t.len() > 0 ==> in_types(args.push(arg)) == in_types(args).push(t)),
        type_of(arg) is None ==> in_types(args.push(arg)) == in_types(args),
        in_type(arg) matches Some(t) ==> t.len() > 0,
        in_types(Seq::empty()).len() == 0,
{
    assert(args.push(arg).drop_last() =~= args);
}

/// A method is a setter exactly if its name begins with `Set` and is about brightness and it takes
/// one number; it is listed after those before it, by its name and that type.
pub proof fn setters_take_one_number(parts: Seq<Seq<char>>, part: Seq<char>, quote: Seq<char>)
    ensures
        ({
            let name = spec::until(part, quote);
            let types = method_types(part);
            let fits = spec::starts_with(name, "Set"@) && about_brightness(name) && types.len() == 1 && (
            types[0] == "y"@ || types[0] == "n"@ || types[0] == "q"@ || types[0] == "i"@ || types[0] == "u"@
                || types[0] == "d"@);
            &&& fits ==> setter(part, quote) == Some((name, types[0])) && setters(parts.push(part), quote)
                == setters(parts, quote).push((name, types[0]))
            &&& !fits ==> setter(part, quote) is None && setters(parts.push(part), quote) == setters(
                parts,
                quote,
            )
        }),
        setters(Seq::empty(), quote).len() == 0,
{
    assert(parts.push(part).drop_last() =~= parts);
}

/// A property is listed exactly if it can be written, is about brightness and is a number.
pub proof fn writable_properties_are_listed(parts: Seq<Seq<char>>, part: Seq<char>)
    ensures
        ({
            let name = attribute(part, "name=\""@, "name='"@);
            let t = type_of(part);
            let fits = is_writable(part) && name is Some && t is Some && name->Some_0.len() > 0
                && about_brightness(name->Some_0) && is_number_type(t->Some_0);
            &&& fits ==> writables(parts.push(part)) == writables(parts).push((name->Some_0, t->Some_0))
            &&& !fits ==> writables(parts.push(part)) == writables(parts) && writable(part) is None
        }),
        writables(Seq::empty()).len() == 0,
        is_writable(part) <==> spec::contains(part, "access=\"readwrite\""@) || spec::contains(
            part,
            "access='readwrite'"@,
        ) || spec::contains(part, "access=\"write\""@) || spec::contains(part, "access='write'"@),
{
    assert(parts.push(part).drop_last() =~= parts);
}

/// A method of the login manager is listed exactly if it sets a brightness, by its name and the
/// types of all that is passed in, one after the other.
pub proof fn brightness_methods_are_listed(parts: Seq<Seq<char>>, part: Seq<char>)
    ensures
        ({
            let name = quoted_name(part);
            &&& name.len() > 0 && sets_brightness(name) ==> signatures(parts.push(part)) == signatures(
                parts,
            ).push((name, run_together(method_types(part))))
            &&& name.len() == 0 || !sets_brightness(name) ==> signatures(parts.push(part)) == signatures(
                parts,
            ) && signature(part) is None
        }),
        signatures(Seq::empty()).len() == 0,
{
    assert(parts.push(part).drop_last() =~= parts);
}

/// Texts are run together in their order, with nothing between them.
pub proof fn texts_run_together(s: Seq<Seq<char>>, t: Seq<char>)
    ensures
        run_together(s.push(t)) == run_together(s) + t,
        run_together(Seq::empty()) == Seq::<char>::empty(),
{
    assert(s.push(t).drop_last() =~= s);
}

/// The name of a method goes up to the first quote of either kind.
pub proof fn quoted_names_end_at_quotes(name: Seq<char>, rest: Seq<char>)
    requires
        !name.contains('"'),
        !name.contains('\''),
    ensures
        quoted_name(name + seq!['"'] + rest) == name,
        quoted_name(name + seq!['\''] + rest) == name,
{
    reveal_strlit("\"");
    reveal_strlit("'");
    assert("\""@ =~= seq!['"']);
    assert("'"@ =~= seq!['\'']);
    spec::lemma_split_at(name, '"', rest);
    spec::lemma_no_split(name, '\'');
    let s = name + seq!['\''] + rest;
    spec::lemma_split_at(name, '\'', rest);
    spec::lemma_find_from(s, "\""@, 0);
    match spec::find(s, "\""@) {
        Some(k) => {
            assert(spec::occurs_at(s, "\""@, k));
            assert(s.subrange(k, k + 1)[0] == '"');
            assert(s[k] == '"');
            assert(k > name.len()) by {
                if k < name.len() {
                    assert(name[k] == '"');
                }
            }
            let t = s.take(k);
            let r = rest.take(k - name.len() - 1);
            assert(t =~= name + seq!['\''] + r);
            spec::lemma_split_at(name, '\'', r);
        },
        None => {},
    }
}

} // verus!
