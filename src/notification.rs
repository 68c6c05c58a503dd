use vstd::prelude::*;
use vstd::string::StringExecFns;

use crate::primitives::Target;
use crate::util::{sha512, sha512_hex_of};

verus! {

/// A message waiting to be published on one channel.
#[derive(Clone, Debug)]
pub struct Notification {
    pub target: Target,
    pub plain_text: String,
    pub html: String,
}

/// What a notification holds, as mathematical values.
pub ghost struct NotificationView {
    pub target: Target,
    pub plain_text: Seq<char>,
    pub html: Seq<char>,
}

impl View for Notification {
    type V = NotificationView;

    open spec fn view(&self) -> NotificationView {
        NotificationView { target: self.target, plain_text: self.plain_text@, html: self.html@ }
    }
}

impl Notification {
    fn copied(&self) -> (r: Notification)
        ensures
            r@ == self@,
    {
        Notification {
            target: self.target,
            plain_text: self.plain_text.clone(),
            html: self.html.clone(),
        }
    }
}

/// The text whose digest identifies a notification.
pub open spec fn id_source(target: Target, plain_text: Seq<char>, html: Seq<char>) -> Seq<char> {
    target.name() + ":"@ + plain_text + ":"@ + html
}

/// The identity of a notification: the first 32 hex digits of the SHA-512 digest of
/// its content, so equal content always gets the same identity.
pub open spec fn notification_id(target: Target, plain_text: Seq<char>, html: Seq<char>) -> Seq<
    char,
> {
    sha512_hex_of(id_source(target, plain_text, html)).subrange(0, 32)
}

/// Computes the identity under which a notification is stored.
pub fn notification_id_for(target: Target, plain_text: &str, html: &str) -> (r: String)
    ensures
        r@ == notification_id(target, plain_text@, html@),
{
    let mut source = String::from_str(target.as_str());
    source.append(":");
    source.append(plain_text);
    source.append(":");
    source.append(html);
    assert(source@ =~= id_source(target, plain_text@, html@));
    let digest = sha512(source.as_str());
    let prefix = digest.as_str().substring_char(0, 32);
    prefix.to_owned()
}

/// Every key of `m` is the identity of the notification stored under it.
pub open spec fn content_addressed(m: Map<Seq<char>, NotificationView>) -> bool {
    forall|k: Seq<char>|
        #[trigger] m.contains_key(k) ==> k == notification_id(m[k].target, m[k].plain_text, m[k].html)
}

/// The pending notifications, keyed by identity.
pub struct NotificationStore {
    rows: Vec<(String, Notification)>,
    contents: Ghost<Map<Seq<char>, NotificationView>>,
}

impl View for NotificationStore {
    type V = Map<Seq<char>, NotificationView>;

    closed spec fn view(&self) -> Map<Seq<char>, NotificationView> {
        self.contents@
    }
}

impl NotificationStore {
    /// Each row is stored under its own identity, and no identity is stored twice.
    pub closed spec fn wf(&self) -> bool {
        &&& content_addressed(self.contents@)
        &&& forall|i: int|
            0 <= i < self.rows@.len() ==> {
                &&& self.contents@.contains_key(#[trigger] self.rows@[i].0@)
                &&& self.contents@[self.rows@[i].0@] == self.rows@[i].1@
            }
        &&& forall|k: Seq<char>|
            #[trigger] self.contents@.contains_key(k) ==> exists|i: int|
                0 <= i < self.rows@.len() && #[trigger] self.rows@[i].0@ == k
        &&& forall|i: int, j: int|
            0 <= i < self.rows@.len() && 0 <= j < self.rows@.len() && i != j
                ==> #[trigger] self.rows@[i].0@ != #[trigger] self.rows@[j].0@
    }

    /// In a well-formed store every key is its notification's identity, so one
    /// content never occupies two rows.
    pub proof fn lemma_content_addressed(&self)
        requires
            self.wf(),
        ensures
            content_addressed(self@),
            forall|k1: Seq<char>, k2: Seq<char>|
                #[trigger] self@.contains_key(k1) && #[trigger] self@.contains_key(k2) && self@[k1]
                    == self@[k2] ==> k1 == k2,
    {
    }

    /// An empty store.
    pub fn new() -> (r: NotificationStore)
        ensures
            r.wf(),
            r@ == Map::<Seq<char>, NotificationView>::empty(),
    {
        NotificationStore { rows: Vec::new(), contents: Ghost(Map::empty()) }
    }

    /// The row that holds `id`, if any.
    fn find(&self, id: &String) -> (r: Option<usize>)
        requires
            self.wf(),
        ensures
            match r {
                Some(i) => i < self.rows@.len() && self.rows@[i as int].0@ == id@,
                None => !self@.contains_key(id@),
            },
    {
        let mut i: usize = 0;
        while i < self.rows.len()
            invariant
                i <= self.rows@.len(),
                forall|j: int| 0 <= j < i ==> self.rows@[j].0@ != id@,
            decreases self.rows.len() - i,
        {
            if self.rows[i].0 == *id {
                return Some(i);
            }
            i += 1;
        }
        None
    }

    /// Queues a notification under its content identity and returns that identity.
    /// Queuing the same content again leaves the store as it was.
    pub fn create_notification(&mut self, target: Target, plain_text: &str, html: &str) -> (r:
        String)
        requires
            old(self).wf(),
        ensures
            final(self).wf(),
            r@ == notification_id(target, plain_text@, html@),
            final(self)@ == old(self)@.insert(
                r@,
                NotificationView { target, plain_text: plain_text@, html: html@ },
            ),
    {
        let id = notification_id_for(target, plain_text, html);
        let value = Notification {
            target,
            plain_text: plain_text.to_owned(),
            html: html.to_owned(),
        };
        let ghost v = value@;
        let found = self.find(&id);
        let ghost old_rows = self.rows@;
        let ghost new_contents = self.contents@.insert(id@, v);
        match found {
            Some(i) => {
                self.rows.set(i, (id.clone(), value));
            },
            None => {
                self.rows.push((id.clone(), value));
            },
        }
        self.contents = Ghost(new_contents);
        proof {
            assert forall|k: Seq<char>| #[trigger] new_contents.contains_key(k) implies exists|
                i: int,
            | 0 <= i < self.rows@.len() && #[trigger] self.rows@[i].0@ == k by {
                if k == id@ {
                    match found {
                        Some(i) => assert(self.rows@[i as int].0@ == k),
                        None => assert(self.rows@[old_rows.len() as int].0@ == k),
                    }
                } else {
                    let j = choose|j: int| 0 <= j < old_rows.len() && #[trigger] old_rows[j].0@ == k;
                    assert(self.rows@[j].0@ == k);
                }
            }
        }
        id
    }

    /// The notifications queued for `target`, each with its identity, in no
    /// particular order.
    pub fn get_notifications_by_target(&self, target: Target) -> (r: Vec<(String, Notification)>)
        requires
            self.wf(),
        ensures
            forall|i: int|
                #![trigger r@[i]]
                0 <= i < r@.len() ==> {
                    &&& self@.contains_key(r@[i].0@)
                    &&& self@[r@[i].0@] == r@[i].1@
                    &&& r@[i].1.target == target
                },
            forall|k: Seq<char>|
                #[trigger] self@.contains_key(k) && self@[k].target == target ==> exists|i: int|
                    0 <= i < r@.len() && #[trigger] r@[i].0@ == k,
            forall|i: int, j: int|
                0 <= i < r@.len() && 0 <= j < r@.len() && i != j ==> #[trigger] r@[i].0@
                    != #[trigger] r@[j].0@,
    {
        let mut out: Vec<(String, Notification)> = Vec::new();
        let ghost picked: Seq<int> = Seq::empty();
        let mut i: usize = 0;
        while i < self.rows.len()
            invariant
                i <= self.rows@.len(),
                picked.len() == out@.len(),
                forall|a: int|
                    0 <= a < out@.len() ==> {
                        &&& 0 <= #[trigger] picked[a] < i
                        &&& out@[a].0@ == self.rows@[picked[a]].0@
                        &&& out@[a].1@ == self.rows@[picked[a]].1@
                        &&& out@[a].1.target == target
                    },
                forall|a: int, b: int|
                    0 <= a < b < out@.len() ==> #[trigger] picked[a] < #[trigger] picked[b],
                forall|j: int|
                    0 <= j < i && self.rows@[j].1.target == target ==> exists|a: int|
                        0 <= a < out@.len() && #[trigger] picked[a] == j,
            decreases self.rows.len() - i,
        {
            if self.rows[i].1.target == target {
                let row = (self.rows[i].0.clone(), self.rows[i].1.copied());
                let ghost old_out = out@;
                out.push(row);
                proof {
                    let a = picked.len() as int;
                    let old_picked = picked;
                    picked = picked.push(i as int);
                    assert(picked[a] == i);
                    assert(out@[a].0@ == self.rows@[i as int].0@);
                    assert(out@[a].1@ == self.rows@[i as int].1@);
                    assert(out@[a].1.target == target);
                    assert(0 <= picked[a] < i + 1);
                    assert forall|b: int| 0 <= b < out@.len() implies {
                        &&& 0 <= #[trigger] picked[b] < i + 1
                        &&& out@[b].0@ == self.rows@[picked[b]].0@
                        &&& out@[b].1@ == self.rows@[picked[b]].1@
                        &&& out@[b].1.target == target
                    } by {
                        if b < a {
                            assert(picked[b] == old_picked[b] && out@[b] == old_out[b]);
                            assert(0 <= old_picked[b] < i);
                        }
                    }
                    assert forall|j: int|
                        0 <= j < i + 1 && self.rows@[j].1.target == target implies exists|c: int|
                        0 <= c < out@.len() && #[trigger] picked[c] == j by {
                        if j == i {
                            assert(picked[a] == j);
                        } else {
                            let c = choose|c: int| 0 <= c < old_out.len() && #[trigger] old_picked[c] == j;
                            assert(picked[c] == j);
                        }
                    }
                }
            }
            i += 1;
        }
        proof {
            assert forall|a: int| #![trigger out@[a]] 0 <= a < out@.len() implies {
                &&& self@.contains_key(out@[a].0@)
                &&& self@[out@[a].0@] == out@[a].1@
                &&& out@[a].1.target == target
            } by {
                let j = picked[a];
                assert(0 <= j < self.rows@.len());
                assert(self.contents@.contains_key(self.rows@[j].0@));
                assert(self.contents@[self.rows@[j].0@] == self.rows@[j].1@);
            }
            assert forall|k: Seq<char>|
                #[trigger] self@.contains_key(k) && self@[k].target == target implies exists|
                i: int,
            | 0 <= i < out@.len() && #[trigger] out@[i].0@ == k by {
                let j = choose|j: int| 0 <= j < self.rows@.len() && #[trigger] self.rows@[j].0@ == k;
                let a = choose|a: int| 0 <= a < out@.len() && #[trigger] picked[a] == j;
                assert(out@[a].0@ == k);
            }
            assert forall|a: int, b: int|
                0 <= a < out@.len() && 0 <= b < out@.len() && a != b implies #[trigger] out@[a].0@
                != #[trigger] out@[b].0@ by {
                if a < b {
                    assert(picked[a] < picked[b]);
                } else {
                    assert(picked[b] < picked[a]);
                }
            }
        }
        out
    }

    /// The channel of the notification stored under `id`, if there is one.
    pub fn target_of(&self, id: &str) -> (r: Option<Target>)
        requires
            self.wf(),
        ensures
            r == (if self@.contains_key(id@) {
                Some(self@[id@].target)
            } else {
                None
            }),
    {
        let key = id.to_owned();
        match self.find(&key) {
            Some(i) => Some(self.rows[i].1.target),
            None => None,
        }
    }

    /// Removes the notification stored under `id`; an identity that is not there
    /// leaves the store as it was.
    pub fn delete_notification(&mut self, id: &str)
        requires
            old(self).wf(),
        ensures
            final(self).wf(),
            final(self)@ == old(self)@.remove(id@),
    {
        let key = id.to_owned();
        let ghost new_contents = self.contents@.remove(id@);
        match self.find(&key) {
            Some(i) => {
                let ghost old_rows = self.rows@;
                self.rows.remove(i);
                self.contents = Ghost(new_contents);
                proof {
                    assert forall|k: Seq<char>| #[trigger] new_contents.contains_key(k) implies exists|
                        j: int,
                    | 0 <= j < self.rows@.len() && #[trigger] self.rows@[j].0@ == k by {
                        let j = choose|j: int| 0 <= j < old_rows.len() && #[trigger] old_rows[j].0@ == k;
                        if j < i {
                            assert(self.rows@[j].0@ == k);
                        } else {
                            assert(self.rows@[j - 1].0@ == k);
                        }
                    }
                    assert forall|a: int| 0 <= a < self.rows@.len() implies new_contents.contains_key(
                        #[trigger] self.rows@[a].0@,
                    ) && new_contents[self.rows@[a].0@] == self.rows@[a].1@ by {
                        if a < i {
                            assert(old_rows[a] == self.rows@[a]);
                        } else {
                            assert(old_rows[a + 1] == self.rows@[a]);
                        }
                    }
                }
            },
            None => {
                assert(new_contents =~= self.contents@);
            },
        }
    }
}

/// Queuing the same content a second time leaves the store exactly as queuing it
/// once did, so one content never occupies two rows; and removing an identity that
/// is no longer stored changes nothing.
pub proof fn lemma_queue_idempotent(
    m: Map<Seq<char>, NotificationView>,
    target: Target,
    plain_text: Seq<char>,
    html: Seq<char>,
)
    ensures
        ({
            let id = notification_id(target, plain_text, html);
            let v = NotificationView { target, plain_text, html };
            &&& m.insert(id, v).insert(id, v) == m.insert(id, v)
            &&& m.insert(id, v).remove(id).remove(id) == m.insert(id, v).remove(id)
            &&& !m.insert(id, v).remove(id).contains_key(id)
        }),
{
    let id = notification_id(target, plain_text, html);
    let v = NotificationView { target, plain_text, html };
    assert(m.insert(id, v).insert(id, v) =~= m.insert(id, v));
    assert(m.insert(id, v).remove(id).remove(id) =~= m.insert(id, v).remove(id));
}

} // verus!
