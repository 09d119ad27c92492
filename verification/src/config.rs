//! The app registry: what the room can launch.
//!
//! The registry is read from TOML at the edge of the daemon; what makes a
//! registry acceptable is decided here.

use vstd::prelude::*;

use crate::strset::views;
use crate::text::{concat, str_eq};

verus! {

/// One launchable app.
#[derive(Debug, Clone, PartialEq, Eq)]
pub struct AppSpec {
    /// Stable identifier used in URLs and event subjects.
    pub id: String,
    /// Display name shown on the TV.
    pub name: String,
    /// Program to execute. Must be on PATH inside the compositor session.
    pub command: String,
    /// Arguments passed to `command`.
    pub args: Vec<String>,
    /// Icon name the surface renders. Free-form; the surface decides.
    pub icon: String,
}

/// The ids of a registry, in order.
pub open spec fn app_ids(apps: Seq<AppSpec>) -> Seq<Seq<char>> {
    apps.map_values(|a: AppSpec| a.id@)
}

/// Accept a registry only when no two apps share an id. Refused with the
/// id of the first app that repeats one.
pub fn check_unique_ids(apps: Vec<AppSpec>) -> (r: Result<Vec<AppSpec>, String>)
    ensures
        match r {
            Ok(v) => v@ == apps@ && app_ids(apps@).no_duplicates(),
            Err(msg) => exists|j: int|
                0 <= j < apps@.len() && app_ids(apps@).subrange(0, j).contains(
                    #[trigger] app_ids(apps@)[j],
                ) && (forall|k: int|
                    0 <= k < j ==> !app_ids(apps@).subrange(0, k).contains(
                        #[trigger] app_ids(apps@)[k],
                    )) && msg@ == "duplicate app id in registry: "@ + app_ids(apps@)[j],
        },
{
    let ghost ids = app_ids(apps@);
    let mut i: usize = 0;
    while i < apps.len()
        invariant
            ids == app_ids(apps@),
            i <= apps@.len(),
            ids.subrange(0, i as int).no_duplicates(),
            forall|k: int| 0 <= k < i ==> !ids.subrange(0, k).contains(#[trigger] ids[k]),
        decreases apps@.len() - i,
    {
        let mut j: usize = 0;
        while j < i
            invariant
                ids == app_ids(apps@),
                i < apps@.len(),
                j <= i,
                forall|k: int| 0 <= k < j ==> ids[k] != ids[i as int],
                forall|k: int| 0 <= k < i ==> !ids.subrange(0, k).contains(#[trigger] ids[k]),
            decreases i - j,
        {
            assert(ids[j as int] == apps@[j as int].id@);
            assert(ids[i as int] == apps@[i as int].id@);
            if str_eq(apps[j].id.as_str(), apps[i].id.as_str()) {
                proof {
                    assert(ids.subrange(0, i as int)[j as int] == ids[i as int]);
                    assert(ids.subrange(0, i as int).contains(ids[i as int]));
                }
                let msg = concat("duplicate app id in registry: ", apps[i].id.as_str());
                return Err(msg);
            }
            j = j + 1;
        }
        proof {
            assert(!ids.subrange(0, i as int).contains(ids[i as int])) by {
                if ids.subrange(0, i as int).contains(ids[i as int]) {
                    let k = choose|k: int|
                        0 <= k < i && ids.subrange(0, i as int)[k] == ids[i as int];
                    assert(ids[k] == ids[i as int]);
                }
            }
            let pre = ids.subrange(0, i + 1);
            assert forall|a: int, b: int|
                0 <= a < pre.len() && 0 <= b < pre.len() && a != b implies pre[a] != pre[b] by {
                if a == i {
                    assert(ids.subrange(0, i as int)[b] == pre[b]);
                } else if b == i {
                    assert(ids.subrange(0, i as int)[a] == pre[a]);
                } else {
                    assert(ids.subrange(0, i as int)[a] == pre[a]);
                    assert(ids.subrange(0, i as int)[b] == pre[b]);
                }
            }
        }
        i = i + 1;
    }
    assert(ids.subrange(0, apps@.len() as int) =~= ids);
    assert(ids.no_duplicates());
    Ok(apps)
}

} // verus!
