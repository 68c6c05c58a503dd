use vstd::prelude::*;

use crate::notification::{NotificationStore, NotificationView};
use crate::primitives::Target;

verus! {

/// The store after the dispatcher of `target` tried to publish the row `id`: a
/// published row of its own channel is removed, anything else stays.
pub open spec fn after_publish(
    m: Map<Seq<char>, NotificationView>,
    target: Target,
    id: Seq<char>,
    published: bool,
) -> Map<Seq<char>, NotificationView> {
    if published && m.contains_key(id) && m[id].target == target {
        m.remove(id)
    } else {
        m
    }
}

/// Records the result of publishing the row `id` on `target`'s channel: a published
/// row is deleted, a failed one is kept for the next cycle, and rows of other
/// channels are never touched.
pub fn record_publish(store: &mut NotificationStore, target: Target, id: &str, published: bool)
    requires
        old(store).wf(),
    ensures
        final(store).wf(),
        final(store)@ == after_publish(old(store)@, target, id@, published),
{
    if published {
        if let Some(t) = store.target_of(id) {
            if t == target {
                store.delete_notification(id);
            }
        }
    }
}

/// A dispatcher removes only a row of its own channel that it published: every
/// other row stays as it was, whatever the outcome.
pub proof fn lemma_dispatch_isolated(
    m: Map<Seq<char>, NotificationView>,
    target: Target,
    id: Seq<char>,
    published: bool,
    k: Seq<char>,
)
    requires
        m.contains_key(k),
        m[k].target != target || !published || k != id,
    ensures
        after_publish(m, target, id, published).contains_key(k),
        after_publish(m, target, id, published)[k] == m[k],
{
}

} // verus!
