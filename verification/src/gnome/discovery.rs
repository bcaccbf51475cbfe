//! Walking the objects of a service, and what is found there to set a brightness with.
use std::collections::VecDeque;

use vstd::prelude::*;

use crate::gnome::introspect;
use crate::search::seen;
use crate::sorting;
use crate::sorting::Ordered;
use crate::text;
use crate::text_spec as spec;

pub mod laws;

verus! {

/// An object to look at, and how far below the first ones it is.
#[derive(Debug)]
pub struct Visit {
    pub path: String,
    pub depth: u32,
}

impl View for Visit {
    type V = (Seq<char>, u32);

    open spec fn view(&self) -> (Seq<char>, u32) {
        (self.path@, self.depth)
    }
}

/// A walk through the objects of a service, nearer ones first. It looks at no object twice, at
/// none too far down, and at no more than some number of them.
#[derive(Debug)]
pub struct Walk {
    queue: VecDeque<Visit>,
    visited: Vec<String>,
    max_depth: u32,
    max_nodes: usize,
}

#[verifier::ext_equal]
pub struct WalkView {
    pub queue: Seq<(Seq<char>, u32)>,
    pub visited: Seq<Seq<char>>,
    pub max_depth: u32,
    pub max_nodes: usize,
}

impl View for Walk {
    type V = WalkView;

    closed spec fn view(&self) -> WalkView {
        WalkView {
            queue: seen(self.queue@),
            visited: spec::strings(self.visited@),
            max_depth: self.max_depth,
            max_nodes: self.max_nodes,
        }
    }
}

/// The next object to look at. The walk has ended where there is none.
pub open spec fn next_visit(w: WalkView) -> (WalkView, Option<(Seq<char>, u32)>)
    decreases w.queue.len(),
{
    if w.queue.len() == 0 {
        (w, None)
    } else {
        let v = w.queue[0];
        let rest = WalkView { queue: w.queue.skip(1), ..w };
        if v.1 > w.max_depth || w.visited.contains(v.0) {
            next_visit(rest)
        } else {
            let after = WalkView { visited: w.visited.push(v.0), ..rest };
            if after.visited.len() > w.max_nodes {
                (after, None)
            } else {
                (after, Some(v))
            }
        }
    }
}

/// The path of an object below another one.
pub open spec fn child_path(path: Seq<char>, node: Seq<char>) -> Seq<char> {
    if spec::ends_with(path, "/"@) {
        path + node
    } else {
        path + "/"@ + node
    }
}

/// The objects below an object, by its description.
pub open spec fn children(v: (Seq<char>, u32), nodes: Seq<Seq<char>>) -> Seq<(Seq<char>, u32)> {
    Seq::new(nodes.len(), |i: int| (child_path(v.0, nodes[i]), (v.1 + 1) as u32))
}

/// The walk once an object was described: the objects below it come last.
pub open spec fn described(w: WalkView, v: (Seq<char>, u32), xml: Seq<char>) -> WalkView {
    WalkView { queue: w.queue + children(v, introspect::node_names(xml)), ..w }
}

/// The first objects of a walk.
pub open spec fn starting(paths: Seq<Seq<char>>) -> Seq<(Seq<char>, u32)> {
    Seq::new(paths.len(), |i: int| (paths[i], 0))
}

fn child_of(path: &str, node: &str) -> (r: String)
    ensures
        r@ == child_path(path@, node@),
{
    let p = text::chars_of(path);
    let mut r = String::from_str(path);
    if !text::ends_with(p.as_slice(), "/") {
        r.append("/");
    }
    r.append(node);
    r
}

impl Walk {
    pub fn new(paths: &Vec<String>, max_depth: u32, max_nodes: usize) -> (r: Self)
        ensures
            r@ == (WalkView {
                queue: starting(spec::strings(paths@)),
                visited: seq![],
                max_depth,
                max_nodes,
            }),
    {
        let mut queue: VecDeque<Visit> = VecDeque::new();
        let mut i: usize = 0;
        while i < paths.len()
            invariant
                i <= paths@.len(),
                queue@.len() == i,
                forall|k: int| 0 <= k < i ==> (#[trigger] queue@[k])@ == (paths@[k]@, 0u32),
            decreases paths.len() - i,
        {
            queue.push_back(Visit { path: paths[i].clone(), depth: 0 });
            i = i + 1;
        }
        let r = Walk { queue, visited: Vec::new(), max_depth, max_nodes };
        assert(seen(queue@) =~= starting(spec::strings(paths@)));
        assert(spec::strings(r.visited@) =~= seq![]);
        r
    }

    fn was_visited(&self, path: &str) -> (r: bool)
        ensures
            r == self@.visited.contains(path@),
    {
        let ghost all = self@.visited;
        let mut i: usize = 0;
        while i < self.visited.len()
            invariant
                i <= self.visited@.len(),
                all == spec::strings(self.visited@),
                forall|j: int| 0 <= j < i ==> #[trigger] all[j] != path@,
            decreases self.visited.len() - i,
        {
            if text::same_str(self.visited[i].as_str(), path) {
                assert(all[i as int] == path@);
                return true;
            }
            i = i + 1;
        }
        false
    }

    /// The next object to look at.
    pub fn next(&mut self) -> (r: Option<Visit>)
        ensures
            final(self)@ == next_visit(old(self)@).0,
            match next_visit(old(self)@).1 {
                Some(v) => r matches Some(w) && w@ == v,
                None => r is None,
            },
            r matches Some(w) ==> w.depth <= final(self)@.max_depth,
    {
        let ghost start = self@;
        loop
            invariant
                start == old(self)@,
                next_visit(self@) == next_visit(start),
            decreases self.queue@.len(),
        {
            let ghost before = self@;
            let v = match self.queue.pop_front() {
                Some(v) => v,
                None => {
                    return None;
                },
            };
            proof {
                assert(v@ == before.queue[0]);
                assert(self@.queue =~= before.queue.skip(1));
            }
            if v.depth > self.max_depth || self.was_visited(v.path.as_str()) {
                assert(self@ == (WalkView { queue: before.queue.skip(1), ..before }));
                continue ;
            }
            let ghost done = self@.visited;
            self.visited.push(v.path.clone());
            assert(self@.visited =~= done.push(v@.0));
            assert(self@ == (WalkView {
                queue: before.queue.skip(1),
                visited: done.push(v@.0),
                ..before
            }));
            if self.visited.len() > self.max_nodes {
                return None;
            }
            return Some(v);
        }
    }

    /// Takes up the objects below one that was looked at.
    pub fn describe(&mut self, v: &Visit, xml: &str)
        requires
            v.depth < u32::MAX,
        ensures
            final(self)@ == described(old(self)@, v@, xml@),
    {
        let nodes = introspect::parse_node_names(xml);
        let ghost start = self@;
        let ghost all = children(v@, introspect::node_names(xml@));
        let mut i: usize = 0;
        assert(start.queue + all.take(0) =~= start.queue);
        while i < nodes.len()
            invariant
                i <= nodes@.len(),
                v.depth < u32::MAX,
                all == children(v@, spec::strings(nodes@)),
                self@ == (WalkView { queue: start.queue + all.take(i as int), ..start }),
            decreases nodes.len() - i,
        {
            let ghost before = self@.queue;
            let path = child_of(v.path.as_str(), nodes[i].as_str());
            let c = Visit { path, depth: v.depth + 1 };
            self.queue.push_back(c);
            i = i + 1;
            proof {
                assert(c@ == all[i - 1]);
                assert(self@.queue =~= before.push(c@));
                assert(all.take(i as int) =~= all.take(i - 1).push(all[i - 1]));
                assert(self@.queue =~= start.queue + all.take(i as int));
            }
        }
        assert(all.take(all.len() as int) == all);
    }
}

/// Whether a way to set a brightness is a method or a property.
#[derive(Clone, Copy, Debug, PartialEq, Eq, Structural)]
pub enum DbusSetterKind {
    Method,
    Property,
}

/// A way to set a brightness.
#[derive(Debug)]
pub struct DbusSetter {
    pub destination: String,
    pub path: String,
    pub iface: String,
    pub name: String,
    pub arg_ty: String,
    pub kind: DbusSetterKind,
}

#[verifier::ext_equal]
pub struct SetterView {
    pub destination: Seq<char>,
    pub path: Seq<char>,
    pub iface: Seq<char>,
    pub name: Seq<char>,
    pub arg_ty: Seq<char>,
    pub kind: DbusSetterKind,
}

impl View for DbusSetter {
    type V = SetterView;

    open spec fn view(&self) -> SetterView {
        SetterView {
            destination: self.destination@,
            path: self.path@,
            iface: self.iface@,
            name: self.name@,
            arg_ty: self.arg_ty@,
            kind: self.kind,
        }
    }
}

/// The setters of an interface of one kind.
pub open spec fn setters_of(
    destination: Seq<char>,
    path: Seq<char>,
    iface: Seq<char>,
    kind: DbusSetterKind,
    found: Seq<(Seq<char>, Seq<char>)>,
) -> Seq<SetterView> {
    Seq::new(
        found.len(),
        |i: int|
            SetterView { destination, path, iface, name: found[i].0, arg_ty: found[i].1, kind },
    )
}

/// The setters of an interface; one that is about the keyboard has none.
pub open spec fn iface_setters(
    destination: Seq<char>,
    path: Seq<char>,
    iface: Seq<char>,
    block: Seq<char>,
) -> Seq<SetterView> {
    let l = spec::lower(iface);
    if spec::contains(l, "keyboard"@) || spec::contains(l, "kbd"@) {
        seq![]
    } else {
        setters_of(
            destination,
            path,
            iface,
            DbusSetterKind::Method,
            introspect::setter_methods(block),
        ) + setters_of(
            destination,
            path,
            iface,
            DbusSetterKind::Property,
            introspect::writable_props(block),
        )
    }
}

/// The setters of the interfaces of an object.
pub open spec fn object_setters(
    destination: Seq<char>,
    path: Seq<char>,
    blocks: Seq<(Seq<char>, Seq<char>)>,
) -> Seq<SetterView>
    decreases blocks.len(),
{
    if blocks.len() == 0 {
        seq![]
    } else {
        object_setters(destination, path, blocks.drop_last()) + iface_setters(
            destination,
            path,
            blocks.last().0,
            blocks.last().1,
        )
    }
}

fn add_setters(
    out: &mut Vec<DbusSetter>,
    destination: &str,
    path: &str,
    iface: &str,
    kind: DbusSetterKind,
    found: &Vec<(String, String)>,
)
    ensures
        seen(final(out)@) == seen(old(out)@) + setters_of(
            destination@,
            path@,
            iface@,
            kind,
            sorting::pairs(found@),
        ),
{
    let ghost start = seen(out@);
    let ghost all = setters_of(destination@, path@, iface@, kind, sorting::pairs(found@));
    let mut i: usize = 0;
    assert(start + all.take(0) =~= start);
    while i < found.len()
        invariant
            i <= found@.len(),
            all == setters_of(destination@, path@, iface@, kind, sorting::pairs(found@)),
            seen(out@) == start + all.take(i as int),
        decreases found.len() - i,
    {
        let ghost before = seen(out@);
        let s = DbusSetter {
            destination: String::from_str(destination),
            path: String::from_str(path),
            iface: String::from_str(iface),
            name: found[i].0.clone(),
            arg_ty: found[i].1.clone(),
            kind,
        };
        out.push(s);
        i = i + 1;
        proof {
            assert(s@ =~= all[i - 1]);
            assert(seen(out@) =~= before.push(s@));
            assert(all.take(i as int) =~= all.take(i - 1).push(all[i - 1]));
            assert(seen(out@) =~= start + all.take(i as int));
        }
    }
    assert(all.take(all.len() as int) == all);
}

/// Adds the setters of an object, by its description.
pub fn add_object_setters(out: &mut Vec<DbusSetter>, destination: &str, path: &str, xml: &str)
    ensures
        seen(final(out)@) == seen(old(out)@) + object_setters(
            destination@,
            path@,
            introspect::interface_blocks(xml@),
        ),
{
    let blocks = introspect::parse_interface_blocks(xml);
    let ghost bs = sorting::pairs(blocks@);
    let ghost start = seen(out@);
    let mut i: usize = 0;
    assert(start + object_setters(destination@, path@, bs.take(0)) =~= start);
    while i < blocks.len()
        invariant
            i <= blocks@.len(),
            bs == sorting::pairs(blocks@),
            seen(out@) == start + object_setters(destination@, path@, bs.take(i as int)),
        decreases blocks.len() - i,
    {
        let ghost before = seen(out@);
        let iface = blocks[i].0.as_str();
        let block = blocks[i].1.as_str();
        proof {
            assert(bs.take(i + 1).drop_last() == bs.take(i as int));
            assert(bs.take(i + 1).last() == (iface@, block@));
        }
        let all = text::chars_of(iface);
        let low = text::lower(all.as_slice());
        let l = low.as_slice();
        if !text::contains(l, "keyboard") && !text::contains(l, "kbd") {
            let methods = introspect::parse_setter_methods_from_iface(block);
            let props = introspect::parse_writable_props_from_iface(block);
            add_setters(out, destination, path, iface, DbusSetterKind::Method, &methods);
            add_setters(out, destination, path, iface, DbusSetterKind::Property, &props);
        }
        proof {
            assert(seen(out@) =~= before + iface_setters(destination@, path@, iface@, block@));
            assert(seen(out@) =~= start + object_setters(destination@, path@, bs.take(i + 1)));
        }
        i = i + 1;
    }
    assert(bs.take(bs.len() as int) == bs);
}

/// How deep below the first objects the search for setters goes.
pub const SETTER_DEPTH: u32 = 3;

/// How many objects the search for setters looks at.
pub const SETTER_NODES: usize = 64;

/// The objects that the search for setters starts with, in order, each once.
pub open spec fn setter_seeds(root: Seq<char>) -> Seq<Seq<char>> {
    sorting::set_of_texts(
        seq![
            root,
            root + "/Screen"@,
            root + "/Backlight"@,
            root + "/KbdBacklight"@,
            root + "/Keyboard"@,
        ],
    )
}

fn below(root: &str, name: &str) -> (r: String)
    ensures
        r@ == root@ + name@,
{
    let mut r = String::from_str(root);
    r.append(name);
    r
}

/// A walk that searches a service for setters.
pub fn search_for_setters(root: &str) -> (r: Walk)
    ensures
        r@ == (WalkView {
            queue: starting(setter_seeds(root@)),
            visited: seq![],
            max_depth: SETTER_DEPTH,
            max_nodes: SETTER_NODES,
        }),
{
    let mut seeds: Vec<String> = Vec::new();
    seeds.push(String::from_str(root));
    seeds.push(below(root, "/Screen"));
    seeds.push(below(root, "/Backlight"));
    seeds.push(below(root, "/KbdBacklight"));
    seeds.push(below(root, "/Keyboard"));
    assert(spec::strings(seeds@) =~= seq![
        root@,
        root@ + "/Screen"@,
        root@ + "/Backlight"@,
        root@ + "/KbdBacklight"@,
        root@ + "/Keyboard"@,
    ]);
    let sorted = sorting::sort_texts(seeds);
    Walk::new(&sorted, SETTER_DEPTH, SETTER_NODES)
}

/// A number where a condition holds, else zero.
pub open spec fn points(b: bool, n: int) -> int {
    if b {
        n
    } else {
        0
    }
}

/// How likely a setter is to be about the screen, by its path, interface and name.
pub open spec fn setter_score(s: SetterView) -> int {
    let t = spec::lower(s.path + " "@ + s.iface + " "@ + s.name);
    points(spec::contains(t, "screen"@), 40) + points(spec::contains(t, "backlight"@), 30) + points(
        spec::contains(t, "percentage"@),
        20,
    ) + points(spec::contains(t, "brightness"@), 10) + points(
        spec::contains(t, "application"@),
        -100,
    ) + points(spec::contains(t, "kbd"@) || spec::contains(t, "keyboard"@), -100)
}

fn points_for(b: bool, n: i32) -> (r: i32)
    ensures
        r == points(b, n as int),
{
    if b {
        n
    } else {
        0
    }
}

fn score_of(s: &DbusSetter) -> (r: i32)
    ensures
        r == setter_score(s@),
{
    let mut all = s.path.clone();
    all.append(" ");
    all.append(s.iface.as_str());
    all.append(" ");
    all.append(s.name.as_str());
    let chars = text::chars_of(all.as_str());
    let low = text::lower(chars.as_slice());
    let t = low.as_slice();
    points_for(text::contains(t, "screen"), 40) + points_for(text::contains(t, "backlight"), 30)
        + points_for(text::contains(t, "percentage"), 20) + points_for(
        text::contains(t, "brightness"),
        10,
    ) + points_for(text::contains(t, "application"), -100) + points_for(
        text::contains(t, "kbd") || text::contains(t, "keyboard"),
        -100,
    )
}

impl Ordered for DbusSetter {
    type K = SetterView;

    open spec fn key(&self) -> SetterView {
        self@
    }

    open spec fn le(a: SetterView, b: SetterView) -> bool {
        setter_score(a) >= setter_score(b)
    }

    fn at_most(&self, other: &Self) -> (r: bool) {
        score_of(self) >= score_of(other)
    }
}

/// The setters, those with the highest scores first.
pub open spec fn by_score(s: Seq<SetterView>) -> Seq<SetterView> {
    sorting::sorted(s, sorting::order::<DbusSetter>())
}

/// The setters, those with the highest scores first.
pub fn sort_setters(v: Vec<DbusSetter>) -> (r: Vec<DbusSetter>)
    ensures
        seen(r@) == by_score(seen(v@)),
{
    assert(sorting::keys(v@) =~= seen(v@));
    let r = sorting::sort(v);
    assert(sorting::keys(r@) =~= seen(r@));
    r
}

/// A method of the login manager that sets a brightness.
#[derive(Debug)]
pub struct DbusMethodSig {
    pub destination: String,
    pub path: String,
    pub iface: String,
    pub method: String,
    /// The types of the arguments one after the other.
    pub in_sig: String,
}

#[verifier::ext_equal]
pub struct MethodView {
    pub destination: Seq<char>,
    pub path: Seq<char>,
    pub iface: Seq<char>,
    pub method: Seq<char>,
    pub in_sig: Seq<char>,
}

impl View for DbusMethodSig {
    type V = MethodView;

    open spec fn view(&self) -> MethodView {
        MethodView {
            destination: self.destination@,
            path: self.path@,
            iface: self.iface@,
            method: self.method@,
            in_sig: self.in_sig@,
        }
    }
}

/// Whether a signature is long enough for three arguments.
pub open spec fn takes_three(sig: Seq<char>) -> bool {
    spec::byte_len(sig) >= 3
}

fn has_three(sig: &str) -> (r: bool)
    ensures
        r == takes_three(sig@),
{
    let s = text::chars_of(sig);
    text::byte_len(s.as_slice()) >= 3
}

/// The methods of an interface that can take subsystem, device and value.
pub open spec fn iface_methods(
    destination: Seq<char>,
    path: Seq<char>,
    iface: Seq<char>,
    found: Seq<(Seq<char>, Seq<char>)>,
) -> Seq<MethodView>
    decreases found.len(),
{
    if found.len() == 0 {
        seq![]
    } else {
        let before = iface_methods(destination, path, iface, found.drop_last());
        if takes_three(found.last().1) {
            before.push(
                MethodView {
                    destination,
                    path,
                    iface,
                    method: found.last().0,
                    in_sig: found.last().1,
                },
            )
        } else {
            before
        }
    }
}

/// The methods of the interfaces of an object.
pub open spec fn object_methods(
    destination: Seq<char>,
    path: Seq<char>,
    blocks: Seq<(Seq<char>, Seq<char>)>,
) -> Seq<MethodView>
    decreases blocks.len(),
{
    if blocks.len() == 0 {
        seq![]
    } else {
        object_methods(destination, path, blocks.drop_last()) + iface_methods(
            destination,
            path,
            blocks.last().0,
            introspect::brightness_methods(blocks.last().1),
        )
    }
}

fn add_methods(
    out: &mut Vec<DbusMethodSig>,
    destination: &str,
    path: &str,
    iface: &str,
    found: &Vec<(String, String)>,
)
    ensures
        seen(final(out)@) == seen(old(out)@) + iface_methods(
            destination@,
            path@,
            iface@,
            sorting::pairs(found@),
        ),
{
    let ghost start = seen(out@);
    let ghost fs = sorting::pairs(found@);
    let mut i: usize = 0;
    assert(start + iface_methods(destination@, path@, iface@, fs.take(0)) =~= start);
    while i < found.len()
        invariant
            i <= found@.len(),
            fs == sorting::pairs(found@),
            seen(out@) == start + iface_methods(destination@, path@, iface@, fs.take(i as int)),
        decreases found.len() - i,
    {
        let ghost before = seen(out@);
        proof {
            assert(fs.take(i + 1).drop_last() == fs.take(i as int));
            assert(fs.take(i + 1).last() == (found@[i as int].0@, found@[i as int].1@));
        }
        if has_three(found[i].1.as_str()) {
            let m = DbusMethodSig {
                destination: String::from_str(destination),
                path: String::from_str(path),
                iface: String::from_str(iface),
                method: found[i].0.clone(),
                in_sig: found[i].1.clone(),
            };
            out.push(m);
            assert(seen(out@) =~= before.push(m@));
            assert(seen(out@) =~= start + iface_methods(
                destination@,
                path@,
                iface@,
                fs.take(i + 1),
            ));
        }
        i = i + 1;
    }
    assert(fs.take(fs.len() as int) == fs);
}

/// Adds the methods of an object, by its description.
pub fn add_object_methods(out: &mut Vec<DbusMethodSig>, destination: &str, path: &str, xml: &str)
    ensures
        seen(final(out)@) == seen(old(out)@) + object_methods(
            destination@,
            path@,
            introspect::interface_blocks(xml@),
        ),
{
    let blocks = introspect::parse_interface_blocks(xml);
    let ghost bs = sorting::pairs(blocks@);
    let ghost start = seen(out@);
    let mut i: usize = 0;
    assert(start + object_methods(destination@, path@, bs.take(0)) =~= start);
    while i < blocks.len()
        invariant
            i <= blocks@.len(),
            bs == sorting::pairs(blocks@),
            seen(out@) == start + object_methods(destination@, path@, bs.take(i as int)),
        decreases blocks.len() - i,
    {
        let ghost before = seen(out@);
        let iface = blocks[i].0.as_str();
        let block = blocks[i].1.as_str();
        proof {
            assert(bs.take(i + 1).drop_last() == bs.take(i as int));
            assert(bs.take(i + 1).last() == (iface@, block@));
        }
        let found = introspect::parse_brightness_methods(block);
        add_methods(out, destination, path, iface, &found);
        assert(seen(out@) =~= start + object_methods(destination@, path@, bs.take(i + 1)));
        i = i + 1;
    }
    assert(bs.take(bs.len() as int) == bs);
}

/// How deep below the first object the search of the login manager goes.
pub const LOGIND_DEPTH: u32 = 5;

/// How many objects the search of the login manager looks at.
pub const LOGIND_NODES: usize = 160;

/// A walk that searches the login manager for methods that set a brightness.
pub fn search_login_manager() -> (r: Walk)
    ensures
        r@ == (WalkView {
            queue: starting(seq!["/org/freedesktop/login1"@]),
            visited: seq![],
            max_depth: LOGIND_DEPTH,
            max_nodes: LOGIND_NODES,
        }),
{
    let mut paths: Vec<String> = Vec::new();
    paths.push(String::from_str("/org/freedesktop/login1"));
    assert(spec::strings(paths@) =~= seq!["/org/freedesktop/login1"@]);
    Walk::new(&paths, LOGIND_DEPTH, LOGIND_NODES)
}

/// Whether a method belongs to the manager.
pub open spec fn of_manager(m: MethodView) -> bool {
    spec::contains(m.iface, "Manager"@)
}

fn is_of_manager(m: &DbusMethodSig) -> (r: bool)
    ensures
        r == of_manager(m@),
{
    let s = text::chars_of(m.iface.as_str());
    text::contains(s.as_slice(), "Manager")
}

impl Ordered for DbusMethodSig {
    type K = MethodView;

    open spec fn key(&self) -> MethodView {
        self@
    }

    open spec fn le(a: MethodView, b: MethodView) -> bool {
        if of_manager(a) != of_manager(b) {
            of_manager(a)
        } else if a.method != b.method {
            spec::le(a.method, b.method)
        } else {
            spec::le(a.path, b.path)
        }
    }

    fn at_most(&self, other: &Self) -> (r: bool) {
        let x = is_of_manager(self);
        let y = is_of_manager(other);
        if x != y {
            x
        } else if !text::same_str(self.method.as_str(), other.method.as_str()) {
            self.method.at_most(&other.method)
        } else {
            self.path.at_most(&other.path)
        }
    }
}

/// The methods, those of the manager first, then by name and path; neighbours that are the same
/// are listed once.
pub open spec fn sorted_methods(s: Seq<MethodView>) -> Seq<MethodView> {
    sorting::deduped(
        sorting::sorted(s, sorting::order::<DbusMethodSig>()),
        |a: MethodView, b: MethodView| a == b,
    )
}

fn is_same_method(a: &DbusMethodSig, b: &DbusMethodSig) -> (r: bool)
    ensures
        r == (a@ == b@),
{
    let r = text::same_str(a.destination.as_str(), b.destination.as_str()) && text::same_str(
        a.path.as_str(),
        b.path.as_str(),
    ) && text::same_str(a.iface.as_str(), b.iface.as_str()) && text::same_str(
        a.method.as_str(),
        b.method.as_str(),
    ) && text::same_str(a.in_sig.as_str(), b.in_sig.as_str());
    assert(r ==> a@ =~= b@);
    r
}

/// The methods, those of the manager first, then by name and path.
pub fn sort_methods(v: Vec<DbusMethodSig>) -> (r: Vec<DbusMethodSig>)
    ensures
        seen(r@) == sorted_methods(seen(v@)),
{
    assert(sorting::keys(v@) =~= seen(v@));
    let mut s = sorting::sort(v);
    let ghost all = seen(s@);
    assert(sorting::keys(s@) =~= all);
    let ghost same = |a: MethodView, b: MethodView| a == b;
    let ghost mut done: int = 0;
    let mut k: usize = 0;
    assert(all.skip(0) =~= all);
    while k < s.len()
        invariant
            k <= s@.len(),
            0 <= done <= all.len(),
            same == (|a: MethodView, b: MethodView| a == b),
            s@.len() - k == all.len() - done,
            k == sorting::deduped(all.take(done), same).len(),
            seen(s@) == sorting::deduped(all.take(done), same) + all.skip(done),
        decreases s.len() - k,
    {
        let ghost before = seen(s@);
        let ghost kept = sorting::deduped(all.take(done), same);
        proof {
            assert(before[k as int] == all[done]);
            assert(before[k as int] == s@[k as int]@);
            assert(k > 0 ==> before[k - 1] == s@[k - 1]@ && before[k - 1] == kept.last());
            assert(all.take(done + 1).drop_last() == all.take(done));
            assert(all.take(done + 1).last() == all[done]);
        }
        if k > 0 && is_same_method(&s[k], &s[k - 1]) {
            s.remove(k);
            assert(seen(s@) =~= before.remove(k as int));
            assert(before.remove(k as int) =~= kept + all.skip(done + 1));
        } else {
            k = k + 1;
            assert(before =~= kept.push(all[done]) + all.skip(done + 1));
        }
        proof {
            done = done + 1;
        }
    }
    assert(all.take(all.len() as int) == all);
    assert(seen(s@) =~= sorting::deduped(all, same));
    s
}

/// Whether no path of the list is there twice.
pub open spec fn no_repeats(s: Seq<Seq<char>>) -> bool {
    forall|i: int, j: int| 0 <= i < j < s.len() ==> #[trigger] s[i] != #[trigger] s[j]
}

/// A walk looks at an object that it has not looked at before, not too far down, and keeps to
/// the number of objects that it may look at. An object that it has looked at stays so.
pub proof fn visits_are_new_and_bounded(w: WalkView)
    requires
        no_repeats(w.visited),
    ensures
        ({
            let (after, v) = next_visit(w);
            &&& no_repeats(after.visited)
            &&& w.visited.is_prefix_of(after.visited)
            &&& v matches Some(v) ==> {
                &&& !w.visited.contains(v.0)
                &&& after.visited == w.visited.push(v.0)
                &&& after.visited.len() <= w.max_nodes
                &&& v.1 <= w.max_depth
                &&& w.queue.contains(v)
            }
        }),
    decreases w.queue.len(),
{
    if w.queue.len() > 0 {
        let v = w.queue[0];
        let rest = WalkView { queue: w.queue.skip(1), ..w };
        if v.1 > w.max_depth || w.visited.contains(v.0) {
            visits_are_new_and_bounded(rest);
            if let Some(u) = next_visit(rest).1 {
                let i = choose|i: int| 0 <= i < rest.queue.len() && rest.queue[i] == u;
                assert(w.queue[i + 1] == u);
            }
        } else {
            assert(w.queue.contains(v));
            let t = w.visited.push(v.0);
            assert forall|i: int, j: int| 0 <= i < j < t.len() implies #[trigger] t[i]
                != #[trigger] t[j] by {
                if j == w.visited.len() {
                    assert(w.visited[i] == t[i]);
                    assert(w.visited.contains(w.visited[i]));
                }
            }
        }
    }
}

/// Setters are tried from the highest score down, and all that were found are tried.
pub proof fn setters_are_tried_by_score(s: Seq<SetterView>, i: int, j: int)
    requires
        0 <= i < j < by_score(s).len(),
    ensures
        setter_score(by_score(s)[i]) >= setter_score(by_score(s)[j]),
        by_score(s).to_multiset() == s.to_multiset(),
{
    let le = sorting::order::<DbusSetter>();
    sorting::sorting_orders(s, le);
    assert(le(by_score(s)[i], by_score(s)[j]));
}

} // verus!
