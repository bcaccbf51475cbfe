//! What holds of every request for a layout.
use vstd::prelude::*;

use crate::gnome::apply::{
    all_attempts, is_v0, is_v1, is_v2, variants, AttemptView, LogicalMonitorConfigV0,
    LogicalMonitorConfigV1, LogicalMonitorConfigV2, Version, PERSISTENT, TEMPORARY,
};
use crate::gnome::monitors::LogicalView;
use crate::search::seen;

verus! {

/// All properties are tried first and none last; in between, all but the layout mode, where that
/// is among them. Nothing is ever added to a property.
pub proof fn properties_become_fewer(props: Map<Seq<char>, u64>, k: int)
    requires
        0 <= k < variants(props).len(),
    ensures
        variants(props)[0] == props,
        variants(props).last() == Map::<Seq<char>, u64>::empty(),
        variants(props)[k].submap_of(props),
        props.dom().contains("layout-mode"@) ==> variants(props).len() == 3 && (forall|name: Seq<char>|
            #[trigger]
            variants(props)[1].dom().contains(name) <==> props.dom().contains(name) && name
                != "layout-mode"@),
        !props.dom().contains("layout-mode"@) ==> variants(props).len() == 2,
{
}

/// Every form is tried with every choice of properties, for good and for the time being; and for
/// good before for the time being.
pub proof fn every_form_is_tried(props: Map<Seq<char>, u64>, version: Version, k: int)
    requires
        0 <= k < variants(props).len(),
    ensures
        ({
            let n = variants(props).len() as int;
            let base = match version {
                Version::V2 => 0,
                Version::V1 => 2 * n,
                Version::V0 => 4 * n,
            };
            let s = all_attempts(props);
            &&& s[base + k] == (AttemptView { version, method: 2, props: variants(props)[k] })
            &&& s[base + n + k] == (AttemptView { version, method: 1, props: variants(props)[k] })
            &&& s.len() == 6 * n
        }),
{
    assert(PERSISTENT == 2 && TEMPORARY == 1);
}

/// A logical monitor is requested where it is, as it is scaled and turned, with all its monitors
/// in their order.
pub proof fn requests_keep_the_layout(
    l: LogicalView,
    a: LogicalMonitorConfigV2,
    b: LogicalMonitorConfigV1,
    c: LogicalMonitorConfigV0,
    k: int,
)
    requires
        is_v2(l, a),
        is_v1(l, b),
        is_v0(l, c),
        0 <= k < l.monitors.len(),
    ensures
        a.x == b.x == c.x == l.x && a.y == b.y == c.y == l.y,
        a.scale == l.scale && b.scale == l.scale && c.scale == l.scale,
        a.transform == b.transform == c.transform == l.transform,
        a.primary == l.primary && b.primary == l.primary && c.primary == l.primary,
        a.monitors@.len() == b.monitors@.len() == c.monitors@.len() == l.monitors.len(),
        a.monitors@[k]@ == l.monitors[k].spec && b.monitors@[k].spec@ == l.monitors[k].spec
            && c.monitors@[k].connector@ == l.monitors[k].spec.connector,
        b.monitors@[k].mode_id@ == l.monitors[k].mode_id && c.monitors@[k].mode_id@
            == l.monitors[k].mode_id,
        b.monitors@[k].props@ == l.monitors[k].props && c.monitors@[k].props@ == l.monitors[k].props,
        a.props@ == l.props,
{
    assert(seen(a.monitors@)[k] == l.monitors[k].spec);
    assert(seen(a.monitors@).len() == l.monitors.len());
}

} // verus!
