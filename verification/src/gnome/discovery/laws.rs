//! What holds of every search for what sets a brightness.
use vstd::prelude::*;

use crate::gnome::discovery::{
    child_path, described, iface_methods, iface_setters, next_visit, object_methods, object_setters,
    of_manager, setter_score, setter_seeds, starting, takes_three, DbusMethodSig, DbusSetterKind,
    MethodView, SetterView, WalkView,
};
use crate::gnome::introspect;
use crate::sorting;
use crate::text_spec as spec;

verus! {

/// The object that waits longest is looked at next, unless it lies too far down or was looked at
/// before: such objects are passed over. A walk that has looked at as many objects as it may ends.
pub proof fn objects_are_visited_in_order(w: WalkView, v: (Seq<char>, u32), rest: Seq<(Seq<char>, u32)>)
    requires
        w.queue == seq![v] + rest,
    ensures
        ({
            let after = WalkView { queue: rest, ..w };
            &&& v.1 > w.max_depth || w.visited.contains(v.0) ==> next_visit(w) == next_visit(after)
            &&& v.1 <= w.max_depth && !w.visited.contains(v.0) && w.visited.len() < w.max_nodes
                ==> next_visit(w) == (
                WalkView { queue: rest, visited: w.visited.push(v.0), ..w },
                Some(v),
            )
            &&& v.1 <= w.max_depth && !w.visited.contains(v.0) && w.visited.len() >= w.max_nodes
                ==> next_visit(w).1 is None
        }),
        next_visit(WalkView { queue: Seq::empty(), ..w }).1 is None,
{
    assert(w.queue.skip(1) =~= rest);
}

/// The path of an object is that of the one above it, one slash, and its own name.
pub proof fn paths_are_joined_by_one_slash(path: Seq<char>, node: Seq<char>)
    ensures
        child_path("/"@, node) == "/"@ + node,
        path.len() == 0 || path.last() != '/' ==> child_path(path, node) == path + "/"@ + node,
        child_path(path + "/"@, node) == path + "/"@ + node,
{
    reveal_strlit("/");
    assert("/"@ =~= seq!['/']);
    assert("/"@.skip(0) =~= "/"@);
    let p = path + "/"@;
    assert(p.skip(p.len() - 1) =~= "/"@);
    if path.len() > 0 && spec::ends_with(path, "/"@) {
        assert(path.skip(path.len() - 1)[0] == path.last());
    }
}

/// The objects below an object are looked at after all that wait already, one step further down.
pub proof fn objects_below_come_last(w: WalkView, v: (Seq<char>, u32), xml: Seq<char>, k: int)
    requires
        v.1 < u32::MAX,
        0 <= k < introspect::node_names(xml).len(),
    ensures
        ({
            let after = described(w, v, xml);
            &&& after.queue.len() == w.queue.len() + introspect::node_names(xml).len()
            &&& after.queue.take(w.queue.len() as int) == w.queue
            &&& after.queue[w.queue.len() + k] == (
                child_path(v.0, introspect::node_names(xml)[k]),
                (v.1 + 1) as u32,
            )
            &&& after.visited == w.visited
        }),
{
    assert(described(w, v, xml).queue.take(w.queue.len() as int) =~= w.queue);
}

/// A walk starts with the given objects, at the top.
pub proof fn walks_start_at_the_top(paths: Seq<Seq<char>>, k: int)
    requires
        0 <= k < paths.len(),
    ensures
        starting(paths).len() == paths.len(),
        starting(paths)[k] == (paths[k], 0u32),
{
}

/// An interface that is about the keyboard has no setters; of every other one, all its methods and
/// properties that set a brightness are setters, the methods first.
pub proof fn interfaces_have_their_setters(
    destination: Seq<char>,
    path: Seq<char>,
    iface: Seq<char>,
    block: Seq<char>,
    k: int,
)
    requires
        0 <= k,
    ensures
        ({
            let s = iface_setters(destination, path, iface, block);
            let l = spec::lower(iface);
            let m = introspect::setter_methods(block);
            let p = introspect::writable_props(block);
            &&& spec::contains(l, "keyboard"@) || spec::contains(l, "kbd"@) ==> s.len() == 0
            &&& !spec::contains(l, "keyboard"@) && !spec::contains(l, "kbd"@) ==> {
                &&& s.len() == m.len() + p.len()
                &&& k < m.len() ==> s[k] == (SetterView {
                    destination,
                    path,
                    iface,
                    name: m[k].0,
                    arg_ty: m[k].1,
                    kind: DbusSetterKind::Method,
                })
                &&& k < p.len() ==> s[m.len() + k] == (SetterView {
                    destination,
                    path,
                    iface,
                    name: p[k].0,
                    arg_ty: p[k].1,
                    kind: DbusSetterKind::Property,
                })
            }
        }),
{
}

/// An object has the setters and methods of all its interfaces, in their order.
pub proof fn objects_have_what_their_interfaces_have(
    destination: Seq<char>,
    path: Seq<char>,
    blocks: Seq<(Seq<char>, Seq<char>)>,
    b: (Seq<char>, Seq<char>),
)
    ensures
        object_setters(destination, path, blocks.push(b)) == object_setters(destination, path, blocks)
            + iface_setters(destination, path, b.0, b.1),
        object_methods(destination, path, blocks.push(b)) == object_methods(destination, path, blocks)
            + iface_methods(destination, path, b.0, introspect::brightness_methods(b.1)),
        object_setters(destination, path, Seq::empty()).len() == 0,
        object_methods(destination, path, Seq::empty()).len() == 0,
{
    assert(blocks.push(b).drop_last() =~= blocks);
}

/// A method with room for three arguments is tried, and no other one.
pub proof fn methods_with_three_arguments_are_tried(
    destination: Seq<char>,
    path: Seq<char>,
    iface: Seq<char>,
    found: Seq<(Seq<char>, Seq<char>)>,
    m: (Seq<char>, Seq<char>),
)
    ensures
        takes_three(m.1) ==> iface_methods(destination, path, iface, found.push(m)) == iface_methods(
            destination,
            path,
            iface,
            found,
        ).push(MethodView { destination, path, iface, method: m.0, in_sig: m.1 }),
        !takes_three(m.1) ==> iface_methods(destination, path, iface, found.push(m)) == iface_methods(
            destination,
            path,
            iface,
            found,
        ),
        m.1.len() >= 3 ==> takes_three(m.1),
        m.1.len() == 0 ==> !takes_three(m.1),
{
    assert(found.push(m).drop_last() =~= found);
    lemma_bytes(m.1);
}

proof fn lemma_bytes(s: Seq<char>)
    ensures
        spec::byte_len(s) >= s.len(),
    decreases s.len(),
{
    if s.len() > 0 {
        lemma_bytes(s.drop_last());
    }
}

/// The search for setters starts at the root and at the four objects below it that may have one.
pub proof fn search_starts_below_the_root(root: Seq<char>, path: Seq<char>)
    ensures
        setter_seeds(root).contains(path) <==> path == root || path == root + "/Screen"@ || path == root
            + "/Backlight"@ || path == root + "/KbdBacklight"@ || path == root + "/Keyboard"@,
{
    let s = seq![
        root,
        root + "/Screen"@,
        root + "/Backlight"@,
        root + "/KbdBacklight"@,
        root + "/Keyboard"@,
    ];
    sorting::sorted_texts_are_distinct(s);
    assert(s[0] == root && s[1] == root + "/Screen"@ && s[2] == root + "/Backlight"@ && s[3] == root
        + "/KbdBacklight"@ && s[4] == root + "/Keyboard"@);
}

/// What a setter is called, in small letters.
pub open spec fn called(s: SetterView) -> Seq<char> {
    spec::lower(s.path + " "@ + s.iface + " "@ + s.name)
}

/// Whether a setter is about something else than the screen.
pub open spec fn about_something_else(s: SetterView) -> bool {
    spec::contains(called(s), "application"@) || spec::contains(called(s), "kbd"@) || spec::contains(
        called(s),
        "keyboard"@,
    )
}

/// Whether two setters speak of the same things but for the words in question.
pub open spec fn alike(a: SetterView, b: SetterView, screen: bool, backlight: bool, percent: bool) -> bool {
    &&& !screen ==> spec::contains(called(a), "screen"@) == spec::contains(called(b), "screen"@)
    &&& !backlight ==> spec::contains(called(a), "backlight"@) == spec::contains(called(b), "backlight"@)
    &&& !percent ==> spec::contains(called(a), "percentage"@) == spec::contains(called(b), "percentage"@)
    &&& spec::contains(called(a), "application"@) == spec::contains(called(b), "application"@)
    &&& (spec::contains(called(a), "kbd"@) || spec::contains(called(a), "keyboard"@)) == (spec::contains(
        called(b),
        "kbd"@,
    ) || spec::contains(called(b), "keyboard"@))
}

/// Of two setters that differ in nothing else, the one that speaks of the screen scores higher,
/// and so do the one that speaks of the backlight, of a percentage and of brightness; a word
/// counts more than each of those after it. What is about something else never scores higher than
/// what is not.
pub proof fn setters_of_the_screen_score_high(a: SetterView, b: SetterView)
    ensures
        ({
            let bright = spec::contains(called(a), "brightness"@) == spec::contains(
                called(b),
                "brightness"@,
            );
            &&& alike(a, b, true, false, false) && bright && spec::contains(called(a), "screen"@)
                && !spec::contains(called(b), "screen"@) ==> setter_score(a) == setter_score(b) + 40
            &&& alike(a, b, false, true, false) && bright && spec::contains(called(a), "backlight"@)
                && !spec::contains(called(b), "backlight"@) ==> setter_score(a) == setter_score(b) + 30
            &&& alike(a, b, false, false, true) && bright && spec::contains(called(a), "percentage"@)
                && !spec::contains(called(b), "percentage"@) ==> setter_score(a) == setter_score(b) + 20
            &&& alike(a, b, false, false, false) && !bright && spec::contains(called(a), "brightness"@)
                ==> setter_score(a) == setter_score(b) + 10
            &&& about_something_else(a) && !about_something_else(b) ==> setter_score(a) <= setter_score(b)
            &&& !about_something_else(a) ==> 0 <= setter_score(a) <= 100
            &&& spec::contains(called(a), "screen"@) && !about_something_else(a) && !spec::contains(
                called(b),
                "screen"@,
            ) && !spec::contains(called(b), "backlight"@) ==> setter_score(a) > setter_score(b)
        }),
{
}

/// The methods of the manager come first; among the others, and among those, they come by name.
pub proof fn methods_of_the_manager_come_first(s: Seq<MethodView>, i: int, j: int)
    requires
        0 <= i < j < sorting::sorted(s, sorting::order::<DbusMethodSig>()).len(),
    ensures
        ({
            let t = sorting::sorted(s, sorting::order::<DbusMethodSig>());
            &&& of_manager(t[j]) ==> of_manager(t[i])
            &&& of_manager(t[i]) == of_manager(t[j]) ==> spec::le(t[i].method, t[j].method)
            &&& of_manager(t[i]) == of_manager(t[j]) && t[i].method == t[j].method ==> spec::le(
                t[i].path,
                t[j].path,
            )
            &&& t.to_multiset() == s.to_multiset()
        }),
{
    let le = sorting::order::<DbusMethodSig>();
    assert forall|a: MethodView, b: MethodView| #[trigger] le(a, b) || le(b, a) by {
        sorting::lemma_text_order(a.method, b.method);
        sorting::lemma_text_order(a.path, b.path);
    }
    assert forall|a: MethodView, b: MethodView, c: MethodView| #[trigger]
        le(a, b) && #[trigger] le(b, c) implies le(a, c) by {
        sorting::lemma_text_order(a.method, b.method);
        sorting::lemma_text_order(b.method, c.method);
        sorting::lemma_text_order(a.method, c.method);
        if a.method != b.method || b.method != c.method {
            if of_manager(a) == of_manager(b) && of_manager(b) == of_manager(c) {
                sorting::lemma_text_order_chains(a.method, b.method, c.method);
            }
        } else {
            if of_manager(a) == of_manager(b) && of_manager(b) == of_manager(c) {
                sorting::lemma_text_order_chains(a.path, b.path, c.path);
            }
        }
    }
    sorting::sorting_orders(s, le);
    let t = sorting::sorted(s, le);
    assert(le(t[i], t[j]));
    sorting::lemma_text_order(t[i].method, t[j].method);
}

} // verus!
