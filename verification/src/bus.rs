//! The registry: a topic-indexed multiplexer that owns listener callbacks for
//! one payload type and fans each posted event out to every listener
//! registered for its topic.

use vstd::prelude::*;

use crate::event::Event;
use crate::listener::{EventListener, Listener, ListenerError};
use crate::topic_key::{bytes_eq, TopicKey};
use core::marker::PhantomData;

verus! {

/// One registration: a random 64-bit id and the owned callback.
#[derive(Debug)]
struct Entry<L> {
    id: u64,
    listener: L,
}

/// One topic cell: the listeners registered under a single topic key.
/// Cells are created lazily on first access and never destroyed, even when
/// the last listener is removed.
#[derive(Debug)]
struct TopicCell<L> {
    key: TopicKey,
    entries: Vec<Entry<L>>,
}

impl<L> TopicCell<L> {
    /// The (id, listener) pairs in insertion order.
    spec fn pairs(self) -> Seq<(u64, L)> {
        self.entries@.map_values(|e: Entry<L>| (e.id, e.listener))
    }

    /// The registration ids in insertion order.
    spec fn ids(self) -> Seq<u64> {
        self.entries@.map_values(|e: Entry<L>| e.id)
    }

    /// Ids within one cell never repeat.
    spec fn wf(self) -> bool {
        self.ids().no_duplicates()
    }
}

/// The registry for one payload type: a map from topic key to the set of
/// listeners registered under it. One conceptual multi-type bus is a family
/// of these, one per payload type namespace; the payload type parameter is
/// the runtime type identity made static.
///
/// The registry is the sole owner of the registered callbacks; handles are
/// non-owning capability tokens. Every operation takes the registry
/// explicitly; callers that need sharing wrap it in their own synchronized
/// handle.
#[derive(Debug)]
pub struct Eventbus<T, L> {
    cells: Vec<TopicCell<L>>,
    marker: PhantomData<T>,
}

impl<T, L> Eventbus<T, L> {
    /// The topic keys of the created cells, in creation order.
    pub closed spec fn keys(self) -> Seq<Seq<u8>> {
        self.cells@.map_values(|c: TopicCell<L>| c.key@)
    }

    /// The topics whose cell has been created. Cells are created lazily and
    /// never destroyed: this set only grows.
    pub open spec fn dom(self) -> Set<Seq<u8>> {
        self.keys().to_set()
    }

    /// The index of the cell holding topic `k`.
    spec fn cell_index(self, k: Seq<u8>) -> int {
        self.keys().index_of(k)
    }

    /// The (id, listener) registrations under topic `k`, in insertion order;
    /// empty when the cell does not exist.
    pub closed spec fn registrations(self, k: Seq<u8>) -> Seq<(u64, L)> {
        if self.dom().contains(k) {
            self.cells@[self.cell_index(k)].pairs()
        } else {
            Seq::empty()
        }
    }

    /// The ids registered under topic `k`, in insertion order.
    pub open spec fn ids_at(self, k: Seq<u8>) -> Seq<u64> {
        self.registrations(k).map_values(|p: (u64, L)| p.0)
    }

    /// Whether id `id` is currently registered under topic `k`.
    pub open spec fn has(self, k: Seq<u8>, id: u64) -> bool {
        self.ids_at(k).contains(id)
    }

    /// The position of id `id` among the registrations under `k`.
    pub open spec fn id_index(self, k: Seq<u8>, id: u64) -> int {
        self.ids_at(k).index_of(id)
    }

    /// Well-formedness: topic keys are unique across cells and ids are
    /// unique within each cell. Constructors establish it and every
    /// operation preserves it.
    pub closed spec fn wf(self) -> bool {
        &&& self.keys().no_duplicates()
        &&& forall|i: int|
            0 <= i < self.cells@.len() ==> (#[trigger] self.cells@[i]).wf()
    }

    /// A cell's index is determined by its key.
    proof fn lemma_index_determined(self, i: int)
        requires
            self.wf(),
            0 <= i < self.cells@.len(),
        ensures
            self.cell_index(self.keys()[i]) == i,
            self.dom().contains(self.keys()[i]),
    {
        let k = self.keys()[i];
        assert(self.keys().contains(k));
        let j = self.cell_index(k);
        assert(0 <= j < self.keys().len() && self.keys()[j] == k);
        assert(j == i);
    }

    /// An empty registry: no cells, no registrations.
    pub fn new() -> (r: Eventbus<T, L>)
        ensures
            r.wf(),
            r.dom() == Set::<Seq<u8>>::empty(),
            forall|k: Seq<u8>| #[trigger] r.registrations(k) == Seq::<(u64, L)>::empty(),
    {
        let r = Eventbus { cells: Vec::new(), marker: PhantomData };
        proof {
            assert(r.keys() =~= Seq::empty());
            assert(r.dom() =~= Set::empty());
            assert(forall|k: Seq<u8>| #[trigger] r.registrations(k) =~= Seq::<(u64, L)>::empty());
        }
        r
    }

    /// Find the cell for `key`, if it has been created.
    fn find_cell(&self, key: &TopicKey) -> (r: Option<usize>)
        requires
            self.wf(),
        ensures
            match r {
                Some(i) => {
                    &&& i < self.cells@.len()
                    &&& self.keys()[i as int] == key@
                    &&& self.dom().contains(key@)
                    &&& self.cell_index(key@) == i
                },
                None => !self.dom().contains(key@),
            },
    {
        let n = self.cells.len();
        let mut i: usize = 0;
        while i < n
            invariant
                self.wf(),
                n == self.cells@.len(),
                i <= n,
                forall|j: int| 0 <= j < i ==> self.keys()[j] != key@,
            decreases n - i,
        {
            if bytes_eq(self.cells[i].key.as_bytes(), key.as_bytes()) {
                proof {
                    self.lemma_index_determined(i as int);
                }
                return Some(i);
            }
            i = i + 1;
        }
        proof {
            assert(!self.keys().contains(key@));
        }
        None
    }

    /// Find the cell for `key`, creating an empty one if absent. Creation is
    /// the only structural change; no registration is touched.
    fn ensure_cell(&mut self, key: &TopicKey) -> (i: usize)
        requires
            old(self).wf(),
        ensures
            final(self).wf(),
            i < final(self).cells@.len(),
            final(self).keys()[i as int] == key@,
            final(self).cell_index(key@) == i,
            final(self).dom() == old(self).dom().insert(key@),
            forall|k: Seq<u8>| #[trigger] final(self).registrations(k) == old(self).registrations(
                k,
            ),
    {
        match self.find_cell(key) {
            Some(i) => {
                proof {
                    assert(self.dom() =~= old(self).dom().insert(key@));
                }
                i
            },
            None => {
                let ghost pre = *self;
                let i = self.cells.len();
                self.cells.push(TopicCell { key: key.clone(), entries: Vec::new() });
                proof {
                    assert(self.keys() =~= pre.keys().push(key@));
                    assert(self.keys()[i as int] == key@);
                    assert forall|j: int, l: int|
                        0 <= j < self.keys().len() && 0 <= l < self.keys().len() && j != l
                        implies self.keys()[j] != self.keys()[l] by {
                        if j < i && l < i {
                        } else if j == i as int {
                            assert(pre.keys().contains(self.keys()[l]) ==> self.keys()[l] != key@)
                                by {
                                if pre.keys()[l] == key@ {
                                    assert(pre.keys().contains(key@));
                                }
                            }
                            assert(pre.keys()[l] != key@);
                        } else if l == i as int {
                            assert(pre.keys()[j] != key@);
                        }
                    }
                    assert(self.keys().no_duplicates());
                    assert forall|ci: int| 0 <= ci < self.cells@.len()
                        implies (#[trigger] self.cells@[ci]).wf() by {
                        if ci < i {
                            assert(self.cells@[ci] == pre.cells@[ci]);
                        } else {
                            assert(self.cells@[ci].entries@ =~= Seq::empty());
                            assert(self.cells@[ci].ids() =~= Seq::empty());
                        }
                    }
                    self.lemma_index_determined(i as int);
                    pre.keys().lemma_push_to_set_commute(key@);
                    assert(self.dom() =~= pre.dom().insert(key@));
                    assert forall|k: Seq<u8>| #[trigger]
                        self.registrations(k) == pre.registrations(k) by {
                        if k == key@ {
                            assert(!pre.dom().contains(k));
                            assert(pre.registrations(k) =~= Seq::<(u64, L)>::empty());
                            assert(self.cell_index(k) == i);
                            assert(self.cells@[i as int].pairs() =~= Seq::<(u64, L)>::empty());
                        } else if pre.dom().contains(k) {
                            let j = pre.cell_index(k);
                            assert(0 <= j < pre.keys().len() && pre.keys()[j] == k);
                            assert(self.keys()[j] == k);
                            assert(self.keys().contains(k));
                            pre.lemma_index_determined(j);
                            self.lemma_index_determined(j);
                            assert(self.cells@[j] == pre.cells@[j]);
                        } else {
                            assert(!self.dom().contains(k)) by {
                                if self.keys().contains(k) {
                                    let j = choose|j: int|
                                        0 <= j < self.keys().len() && self.keys()[j] == k;
                                    assert(j != i as int);
                                    assert(pre.keys().contains(k));
                                }
                            }
                        }
                    }
                }
                i
            },
        }
    }

    /// Create the cell for `key` if it is absent; no registration changes.
    pub(crate) fn touch_cell(&mut self, key: &TopicKey)
        requires
            old(self).wf(),
        ensures
            final(self).wf(),
            final(self).dom() == old(self).dom().insert(key@),
            forall|k: Seq<u8>| #[trigger] final(self).registrations(k) == old(self).registrations(
                k,
            ),
    {
        let _ = self.ensure_cell(key);
    }

    /// When only the entries of cell `ci` change (its key kept), every other
    /// topic's registrations stay what they were.
    proof fn lemma_update_frame(pre: Self, post: Self, ci: int)
        requires
            pre.wf(),
            0 <= ci < pre.cells@.len(),
            post.cells@.len() == pre.cells@.len(),
            forall|x: int|
                0 <= x < pre.cells@.len() && x != ci ==> post.cells@[x] == pre.cells@[x],
            post.cells@[ci].key@ == pre.cells@[ci].key@,
            post.cells@[ci].wf(),
        ensures
            post.wf(),
            post.keys() =~= pre.keys(),
            post.dom() == pre.dom(),
            forall|k: Seq<u8>|
                k != pre.keys()[ci] ==> #[trigger] post.registrations(k) == pre.registrations(k),
            post.cell_index(pre.keys()[ci]) == ci,
            pre.cell_index(pre.keys()[ci]) == ci,
            post.registrations(pre.keys()[ci]) == post.cells@[ci].pairs(),
            pre.registrations(pre.keys()[ci]) == pre.cells@[ci].pairs(),
    {
        assert(post.keys() =~= pre.keys());
        assert(post.wf());
        pre.lemma_index_determined(ci);
        post.lemma_index_determined(ci);
        assert forall|k: Seq<u8>| k != pre.keys()[ci] implies #[trigger] post.registrations(k)
            == pre.registrations(k) by {
            if pre.dom().contains(k) {
                let j = pre.cell_index(k);
                assert(0 <= j < pre.keys().len() && pre.keys()[j] == k);
                pre.lemma_index_determined(j);
                post.lemma_index_determined(j);
                assert(j != ci);
                assert(post.cells@[j] == pre.cells@[j]);
            }
        }
    }

    /// Find the entry with the given id among a cell's registrations.
    fn find_entry(entries: &Vec<Entry<L>>, id: u64) -> (r: Option<usize>)
        ensures
            match r {
                Some(j) => j < entries@.len() && entries@[j as int].id == id,
                None => forall|x: int| 0 <= x < entries@.len() ==> entries@[x].id != id,
            },
    {
        let n = entries.len();
        let mut j: usize = 0;
        while j < n
            invariant
                n == entries@.len(),
                j <= n,
                forall|x: int| 0 <= x < j ==> entries@[x].id != id,
            decreases n - j,
        {
            if entries[j].id == id {
                return Some(j);
            }
            j = j + 1;
        }
        None
    }

    /// Register a listener under a topic: draw a fresh random 64-bit id and
    /// insert the owned callback into the (type, topic) cell, creating the
    /// cell if needed. Returns the capability handle for the registration.
    /// In the negligible case that the drawn id is already taken, the old
    /// entry is replaced.
    pub fn register(&mut self, key: TopicKey, listener: L) -> (h: EventListener<T>)
        requires
            old(self).wf(),
        ensures
            final(self).wf(),
            h.spec_topic() == key@,
            final(self).dom() == old(self).dom().insert(key@),
            forall|k: Seq<u8>|
                k != key@ ==> #[trigger] final(self).registrations(k) == old(self).registrations(
                    k,
                ),
            final(self).has(key@, h.spec_id()),
            !old(self).has(key@, h.spec_id()) ==> final(self).registrations(key@) == old(
                self,
            ).registrations(key@).push((h.spec_id(), listener)),
            old(self).has(key@, h.spec_id()) ==> final(self).registrations(key@) == old(
                self,
            ).registrations(key@).update(
                old(self).id_index(key@, h.spec_id()),
                (h.spec_id(), listener),
            ),
    {
        let h = EventListener::<T>::new(key.clone());
        let id = h.id();
        let ci = self.ensure_cell(&key);
        let ghost pre = *self;
        let ghost orig = *old(self);
        match Self::find_entry(&self.cells[ci].entries, id) {
            Some(j) => {
                proof {
                    assert(pre.registrations(key@) == pre.cells@[ci as int].pairs());
                    assert(pre.ids_at(key@)[j as int] == id);
                    assert(pre.has(key@, id));
                    assert(orig.has(key@, id) && orig.id_index(key@, id) == pre.id_index(
                        key@,
                        id,
                    )) by {
                        assert(orig.registrations(key@) == pre.registrations(key@));
                    }
                    assert(pre.id_index(key@, id) == j) by {
                        let x = pre.id_index(key@, id);
                        assert(0 <= x < pre.ids_at(key@).len() && pre.ids_at(key@)[x] == id);
                        assert(pre.cells@[ci as int].ids()[x] == id);
                        assert(pre.cells@[ci as int].ids().no_duplicates());
                        assert(pre.cells@[ci as int].ids()[j as int] == id);
                    }
                }
                self.cells[ci].entries[j] = Entry { id, listener };
                proof {
                    let cell = self.cells@[ci as int];
                    let precell = pre.cells@[ci as int];
                    assert(cell.entries@ == precell.entries@.update(
                        j as int,
                        Entry { id, listener },
                    ));
                    assert(cell.ids() =~= precell.ids());
                    assert(cell.wf());
                    assert(cell.pairs() =~= precell.pairs().update(j as int, (id, listener)));
                    Self::lemma_update_frame(pre, *self, ci as int);
                    assert(self.dom() =~= orig.dom().insert(key@));
                    assert(self.registrations(key@) == cell.pairs());
                    assert(self.ids_at(key@)[j as int] == id);
                    assert(self.has(key@, id));
                }
                h
            },
            None => {
                proof {
                    assert(pre.registrations(key@) == pre.cells@[ci as int].pairs());
                    assert(!pre.has(key@, id)) by {
                        if pre.ids_at(key@).contains(id) {
                            let x = choose|x: int|
                                0 <= x < pre.ids_at(key@).len() && pre.ids_at(key@)[x] == id;
                            assert(pre.cells@[ci as int].entries@[x].id == id);
                        }
                    }
                    assert(!orig.has(key@, id)) by {
                        assert(orig.registrations(key@) == pre.registrations(key@));
                    }
                }
                self.cells[ci].entries.push(Entry { id, listener });
                proof {
                    let cell = self.cells@[ci as int];
                    let precell = pre.cells@[ci as int];
                    assert(cell.entries@ == precell.entries@.push(Entry { id, listener }));
                    assert(cell.ids() =~= precell.ids().push(id));
                    assert(cell.wf()) by {
                        assert(precell.ids().no_duplicates());
                        assert(forall|x: int|
                            0 <= x < precell.ids().len() ==> #[trigger] precell.ids()[x]
                                != id) by {
                            assert(forall|x: int|
                                0 <= x < precell.entries@.len() ==> #[trigger] precell.entries@[x].id
                                    != id);
                        }
                    }
                    assert(cell.pairs() =~= precell.pairs().push((id, listener)));
                    Self::lemma_update_frame(pre, *self, ci as int);
                    assert(self.dom() =~= orig.dom().insert(key@));
                    assert(self.registrations(key@) == cell.pairs());
                    assert(self.ids_at(key@)[precell.pairs().len() as int] == id);
                    assert(self.has(key@, id));
                }
                h
            },
        }
    }

    /// Removing one position keeps the remaining elements distinct, and the
    /// removed value is gone when it occurred only there.
    proof fn lemma_remove_keeps_distinct(s: Seq<u64>, i: int)
        requires
            s.no_duplicates(),
            0 <= i < s.len(),
        ensures
            s.remove(i).no_duplicates(),
            !s.remove(i).contains(s[i]),
    {
        s.remove_ensures(i);
        assert forall|x: int, y: int|
            0 <= x < s.remove(i).len() && 0 <= y < s.remove(i).len() && x != y
            implies s.remove(i)[x] != s.remove(i)[y] by {
            let xo: int = if x < i { x } else { x + 1 };
            let yo: int = if y < i { y } else { y + 1 };
            assert(s.remove(i)[x] == s[xo] && s.remove(i)[y] == s[yo]);
        }
        assert forall|x: int| 0 <= x < s.remove(i).len() implies s.remove(i)[x] != s[i] by {
            let xo: int = if x < i { x } else { x + 1 };
            assert(s.remove(i)[x] == s[xo]);
        }
        if s.remove(i).contains(s[i]) {
            let x = choose|x: int| 0 <= x < s.remove(i).len() && s.remove(i)[x] == s[i];
            assert(false);
        }
    }

    /// Remove the registration the handle refers to, if it is still present,
    /// and hand back the owned callback. The containing cell persists even
    /// when its last listener is removed. Safe to call again for the same
    /// handle: the repeat is a no-op returning nothing.
    pub fn take(&mut self, handle: &EventListener<T>) -> (r: Option<L>)
        requires
            old(self).wf(),
        ensures
            final(self).wf(),
            final(self).dom() == old(self).dom().insert(handle.spec_topic()),
            forall|k: Seq<u8>|
                k != handle.spec_topic() ==> #[trigger] final(self).registrations(k) == old(
                    self,
                ).registrations(k),
            !final(self).has(handle.spec_topic(), handle.spec_id()),
            old(self).has(handle.spec_topic(), handle.spec_id()) ==> {
                let j = old(self).id_index(handle.spec_topic(), handle.spec_id());
                &&& r == Some(old(self).registrations(handle.spec_topic())[j].1)
                &&& final(self).registrations(handle.spec_topic()) == old(self).registrations(
                    handle.spec_topic(),
                ).remove(j)
            },
            !old(self).has(handle.spec_topic(), handle.spec_id()) ==> r is None && final(self)
                .registrations(handle.spec_topic()) == old(self).registrations(
                handle.spec_topic(),
            ),
    {
        let ghost topic = handle.spec_topic();
        let id = handle.id();
        let ci = self.ensure_cell(handle.topic());
        let ghost pre = *self;
        let ghost orig = *old(self);
        proof {
            assert(orig.registrations(topic) == pre.registrations(topic));
            assert(pre.registrations(topic) == pre.cells@[ci as int].pairs());
        }
        match Self::find_entry(&self.cells[ci].entries, id) {
            Some(j) => {
                proof {
                    assert(pre.ids_at(topic)[j as int] == id);
                    assert(pre.has(topic, id));
                    assert(pre.id_index(topic, id) == j) by {
                        let x = pre.id_index(topic, id);
                        assert(0 <= x < pre.ids_at(topic).len() && pre.ids_at(topic)[x] == id);
                        assert(pre.cells@[ci as int].ids()[x] == id);
                        assert(pre.cells@[ci as int].ids().no_duplicates());
                        assert(pre.cells@[ci as int].ids()[j as int] == id);
                    }
                }
                let entry = self.cells[ci].entries.remove(j);
                proof {
                    let cell = self.cells@[ci as int];
                    let precell = pre.cells@[ci as int];
                    assert(cell.entries@ == precell.entries@.remove(j as int));
                    precell.entries@.remove_ensures(j as int);
                    assert(cell.ids() =~= precell.ids().remove(j as int));
                    assert(cell.pairs() =~= precell.pairs().remove(j as int));
                    Self::lemma_remove_keeps_distinct(precell.ids(), j as int);
                    assert(cell.wf());
                    Self::lemma_update_frame(pre, *self, ci as int);
                    assert(self.dom() =~= orig.dom().insert(topic));
                    assert(self.registrations(topic) == cell.pairs());
                    assert(!self.has(topic, id)) by {
                        assert(self.ids_at(topic) =~= cell.ids());
                        if cell.ids().contains(id) {
                            assert(precell.ids().remove(j as int).contains(id));
                        }
                    }
                    assert(entry.id == id && (precell.pairs()[j as int]).1 == entry.listener);
                }
                Some(entry.listener)
            },
            None => {
                proof {
                    assert(!pre.has(topic, id)) by {
                        if pre.ids_at(topic).contains(id) {
                            let x = choose|x: int|
                                0 <= x < pre.ids_at(topic).len() && pre.ids_at(topic)[x] == id;
                            assert(pre.cells@[ci as int].entries@[x].id == id);
                        }
                    }
                    assert(!orig.has(topic, id));
                    assert(self.dom() =~= orig.dom().insert(topic));
                }
                None
            },
        }
    }

    /// Remove the registration the handle refers to; a no-op when the handle
    /// was already unregistered. Consumes the handle.
    pub fn unregister(&mut self, handle: EventListener<T>)
        requires
            old(self).wf(),
        ensures
            final(self).wf(),
            final(self).dom() == old(self).dom().insert(handle.spec_topic()),
            forall|k: Seq<u8>|
                k != handle.spec_topic() ==> #[trigger] final(self).registrations(k) == old(
                    self,
                ).registrations(k),
            !final(self).has(handle.spec_topic(), handle.spec_id()),
            old(self).has(handle.spec_topic(), handle.spec_id()) ==> final(self).registrations(
                handle.spec_topic(),
            ) == old(self).registrations(handle.spec_topic()).remove(
                old(self).id_index(handle.spec_topic(), handle.spec_id()),
            ),
            !old(self).has(handle.spec_topic(), handle.spec_id()) ==> final(self).registrations(
                handle.spec_topic(),
            ) == old(self).registrations(handle.spec_topic()),
    {
        let _ = self.take(&handle);
    }

    /// Exchange the callback stored under a handle for a replacement,
    /// keeping the registration id. Returns the previous callback, or the
    /// replacement itself when the handle is no longer registered.
    pub fn swap_listener(&mut self, handle: &EventListener<T>, replacement: L) -> (r: Result<
        L,
        L,
    >)
        requires
            old(self).wf(),
        ensures
            final(self).wf(),
            !old(self).has(handle.spec_topic(), handle.spec_id()) ==> *final(self) == *old(self)
                && r == Err::<L, L>(replacement),
            old(self).has(handle.spec_topic(), handle.spec_id()) ==> {
                let j = old(self).id_index(handle.spec_topic(), handle.spec_id());
                &&& r == Ok::<L, L>(old(self).registrations(handle.spec_topic())[j].1)
                &&& final(self).dom() == old(self).dom()
                &&& final(self).registrations(handle.spec_topic()) == old(self).registrations(
                    handle.spec_topic(),
                ).update(j, (handle.spec_id(), replacement))
                &&& forall|k: Seq<u8>|
                    k != handle.spec_topic() ==> #[trigger] final(self).registrations(k) == old(
                        self,
                    ).registrations(k)
            },
    {
        let ghost topic = handle.spec_topic();
        let id = handle.id();
        let ci = match self.find_cell(handle.topic()) {
            Some(ci) => ci,
            None => {
                proof {
                    assert(!old(self).has(topic, id));
                }
                return Err(replacement);
            },
        };
        let ghost pre = *self;
        proof {
            assert(pre.registrations(topic) == pre.cells@[ci as int].pairs());
        }
        match Self::find_entry(&self.cells[ci].entries, id) {
            Some(j) => {
                proof {
                    assert(pre.ids_at(topic)[j as int] == id);
                    assert(pre.has(topic, id));
                    assert(pre.id_index(topic, id) == j) by {
                        let x = pre.id_index(topic, id);
                        assert(0 <= x < pre.ids_at(topic).len() && pre.ids_at(topic)[x] == id);
                        assert(pre.cells@[ci as int].ids()[x] == id);
                        assert(pre.cells@[ci as int].ids().no_duplicates());
                        assert(pre.cells@[ci as int].ids()[j as int] == id);
                    }
                }
                let mut slot = replacement;
                core::mem::swap(&mut self.cells[ci].entries[j].listener, &mut slot);
                proof {
                    let cell = self.cells@[ci as int];
                    let precell = pre.cells@[ci as int];
                    assert(cell.entries@[j as int].id == id);
                    assert(cell.ids() =~= precell.ids());
                    assert(cell.wf());
                    assert(cell.pairs() =~= precell.pairs().update(j as int, (id, replacement)));
                    Self::lemma_update_frame(pre, *self, ci as int);
                    assert(self.dom() =~= pre.dom());
                    assert(self.registrations(topic) == cell.pairs());
                }
                Ok(slot)
            },
            None => {
                proof {
                    assert(!pre.has(topic, id)) by {
                        if pre.ids_at(topic).contains(id) {
                            let x = choose|x: int|
                                0 <= x < pre.ids_at(topic).len() && pre.ids_at(topic)[x] == id;
                            assert(pre.cells@[ci as int].entries@[x].id == id);
                        }
                    }
                }
                Err(replacement)
            },
        }
    }
}

impl<T, L: Listener<T>> Eventbus<T, L> {
    /// Deliver the event to every listener currently registered for its
    /// topic, each exactly once, in unspecified order. A listener's failure
    /// is isolated: it neither stops delivery to the remaining listeners nor
    /// propagates to the poster. Posting to a topic with no listeners
    /// succeeds trivially (and creates the topic's cell).
    ///
    /// Returns one (id, result) outcome per listener: exactly the ids that
    /// were registered for the event's topic when the post began, each
    /// outcome the result of one real invocation of that listener on this
    /// event, with the stored listener left in the state that invocation
    /// produced.
    pub fn post(&mut self, event: &Event<T>) -> (outcomes: Vec<(u64, Result<(), ListenerError>)>)
        requires
            old(self).wf(),
        ensures
            final(self).wf(),
            final(self).dom() == old(self).dom().insert(event.spec_topic()),
            forall|k: Seq<u8>| #[trigger] final(self).ids_at(k) == old(self).ids_at(k),
            forall|k: Seq<u8>|
                k != event.spec_topic() ==> #[trigger] final(self).registrations(k) == old(
                    self,
                ).registrations(k),
            outcomes@.map_values(|p: (u64, Result<(), ListenerError>)| p.0) == old(self).ids_at(
                event.spec_topic(),
            ),
            outcomes@.map_values(|p: (u64, Result<(), ListenerError>)| p.0).to_set() == old(
                self,
            ).ids_at(event.spec_topic()).to_set(),
            outcomes@.len() == old(self).ids_at(event.spec_topic()).len(),
            forall|j: int|
                0 <= j < outcomes@.len() ==> #[trigger] L::handle_spec(
                    old(self).registrations(event.spec_topic())[j].1,
                    event.spec_topic(),
                    event.spec_message(),
                    final(self).registrations(event.spec_topic())[j].1,
                    outcomes@[j].1,
                ),
    {
        let ghost topic = event.spec_topic();
        let ci = self.ensure_cell(event.topic());
        let ghost pre = *self;
        let ghost orig = *old(self);
        proof {
            assert(pre.registrations(topic) == pre.cells@[ci as int].pairs());
            assert(orig.registrations(topic) == pre.registrations(topic));
            assert(orig.ids_at(topic) =~= pre.cells@[ci as int].ids());
        }
        let mut outcomes: Vec<(u64, Result<(), ListenerError>)> = Vec::new();
        let n = self.cells[ci].entries.len();
        let mut i: usize = 0;
        while i < n
            invariant
                pre.wf(),
                ci < pre.cells@.len(),
                self.cells@.len() == pre.cells@.len(),
                forall|x: int|
                    0 <= x < pre.cells@.len() && x != ci ==> self.cells@[x] == pre.cells@[x],
                self.cells@[ci as int].key@ == pre.cells@[ci as int].key@,
                self.cells@[ci as int].ids() == pre.cells@[ci as int].ids(),
                n == self.cells@[ci as int].entries@.len(),
                i <= n,
                topic == event.spec_topic(),
                outcomes@.len() == i,
                forall|j: int|
                    0 <= j < i ==> (#[trigger] outcomes@[j]).0 == pre.cells@[ci as int].ids()[j],
                forall|j: int|
                    i <= j < n ==> #[trigger] self.cells@[ci as int].entries@[j]
                        == pre.cells@[ci as int].entries@[j],
                forall|j: int|
                    0 <= j < i ==> #[trigger] L::handle_spec(
                        pre.cells@[ci as int].pairs()[j].1,
                        topic,
                        event.spec_message(),
                        self.cells@[ci as int].pairs()[j].1,
                        outcomes@[j].1,
                    ),
            decreases n - i,
        {
            let ghost snap = *self;
            let id = self.cells[ci].entries[i].id;
            let outcome = self.cells[ci].entries[i].listener.handle(event);
            outcomes.push((id, outcome));
            proof {
                let cell = self.cells@[ci as int];
                let snapcell = snap.cells@[ci as int];
                let precell = pre.cells@[ci as int];
                assert(cell.entries@.len() == snapcell.entries@.len());
                assert(cell.ids() =~= snapcell.ids());
                assert(id == precell.ids()[i as int]);
                assert forall|j: int| 0 <= j < i + 1 implies #[trigger] L::handle_spec(
                    precell.pairs()[j].1,
                    topic,
                    event.spec_message(),
                    cell.pairs()[j].1,
                    outcomes@[j].1,
                ) by {
                    if j < i {
                        assert(cell.entries@[j] == snapcell.entries@[j]);
                        assert(snapcell.pairs()[j] == cell.pairs()[j]);
                    } else {
                        assert(snapcell.entries@[i as int] == precell.entries@[i as int]);
                        assert(precell.pairs()[i as int].1 == snapcell.entries@[i as int]
                            .listener);
                        assert(cell.pairs()[i as int].1 == cell.entries@[i as int].listener);
                    }
                }
            }
            i = i + 1;
        }
        proof {
            let precell = pre.cells@[ci as int];
            let cell = self.cells@[ci as int];
            assert(outcomes@.map_values(|p: (u64, Result<(), ListenerError>)| p.0)
                =~= precell.ids());
            assert(cell.wf());
            Self::lemma_update_frame(pre, *self, ci as int);
            assert(self.dom() =~= orig.dom().insert(topic));
            assert forall|k: Seq<u8>| #[trigger] self.ids_at(k) == orig.ids_at(k) by {
                if k == topic {
                    assert(self.registrations(k) == cell.pairs());
                    assert(self.ids_at(k) =~= cell.ids());
                    assert(orig.ids_at(k) =~= precell.ids());
                } else {
                    assert(self.registrations(k) == pre.registrations(k));
                    assert(pre.registrations(k) == orig.registrations(k));
                }
            }
            assert(outcomes@.map_values(|p: (u64, Result<(), ListenerError>)| p.0) == orig.ids_at(
                topic,
            ));
            assert forall|j: int| 0 <= j < outcomes@.len() implies #[trigger] L::handle_spec(
                orig.registrations(topic)[j].1,
                topic,
                event.spec_message(),
                self.registrations(topic)[j].1,
                outcomes@[j].1,
            ) by {
                assert(orig.registrations(topic)[j] == precell.pairs()[j]);
                assert(self.registrations(topic)[j] == cell.pairs()[j]);
            }
        }
        outcomes
    }
}

impl<T, L> Eventbus<T, L> {
    /// The ids registered under one topic never repeat.
    pub proof fn lemma_ids_distinct(self, k: Seq<u8>)
        requires
            self.wf(),
        ensures
            self.ids_at(k).no_duplicates(),
    {
        if self.dom().contains(k) {
            let i = self.cell_index(k);
            assert(self.keys().contains(k));
            assert(0 <= i < self.cells@.len());
            assert(self.cells@[i].wf());
            assert(self.ids_at(k) =~= self.cells@[i].ids());
        }
    }

    /// The number of listeners a topic has.
    pub fn listener_count(&self, key: &TopicKey) -> (n: usize)
        requires
            self.wf(),
        ensures
            n == self.ids_at(key@).len(),
    {
        match self.find_cell(key) {
            Some(i) => {
                proof {
                    assert(self.registrations(key@) == self.cells@[i as int].pairs());
                }
                self.cells[i].entries.len()
            },
            None => 0,
        }
    }

    /// The ids of the listeners registered under a topic, in unspecified
    /// order, each exactly once.
    pub fn listener_ids(&self, key: &TopicKey) -> (r: Vec<u64>)
        requires
            self.wf(),
        ensures
            r@.to_set() == self.ids_at(key@).to_set(),
            r@.no_duplicates(),
            r@.len() == self.ids_at(key@).len(),
    {
        let mut r: Vec<u64> = Vec::new();
        let ci = match self.find_cell(key) {
            Some(i) => i,
            None => {
                proof {
                    assert(r@.to_set() =~= self.ids_at(key@).to_set());
                }
                return r;
            },
        };
        proof {
            assert(self.registrations(key@) == self.cells@[ci as int].pairs());
            assert(self.ids_at(key@) =~= self.cells@[ci as int].ids());
        }
        let n = self.cells[ci].entries.len();
        let mut i: usize = 0;
        while i < n
            invariant
                self.wf(),
                ci < self.cells@.len(),
                n == self.cells@[ci as int].entries@.len(),
                i <= n,
                r@ =~= self.cells@[ci as int].ids().take(i as int),
            decreases n - i,
        {
            r.push(self.cells[ci].entries[i].id);
            proof {
                let cell = self.cells@[ci as int];
                assert(cell.ids().take(i + 1 as int) =~= cell.ids().take(i as int).push(
                    cell.ids()[i as int],
                ));
            }
            i = i + 1;
        }
        proof {
            assert(self.cells@[ci as int].ids().take(n as int) =~= self.cells@[ci as int].ids());
            assert(r@ == self.ids_at(key@));
        }
        r
    }
}

impl<T, L> Default for Eventbus<T, L> {
    /// The default registry is the empty one.
    fn default() -> (r: Self)
        ensures
            r.wf(),
            r.dom() == Set::<Seq<u8>>::empty(),
            forall|k: Seq<u8>| #[trigger] r.registrations(k) == Seq::<(u64, L)>::empty(),
    {
        Eventbus::new()
    }
}

impl<T> EventListener<T> {
    /// Ask the registry to remove this registration; a no-op when it was
    /// already removed. Consumes the handle.
    pub fn unregister<L>(self, bus: &mut Eventbus<T, L>)
        requires
            old(bus).wf(),
        ensures
            final(bus).wf(),
            final(bus).dom() == old(bus).dom().insert(self.spec_topic()),
            forall|k: Seq<u8>|
                k != self.spec_topic() ==> #[trigger] final(bus).registrations(k) == old(
                    bus,
                ).registrations(k),
            !final(bus).has(self.spec_topic(), self.spec_id()),
            old(bus).has(self.spec_topic(), self.spec_id()) ==> final(bus).registrations(
                self.spec_topic(),
            ) == old(bus).registrations(self.spec_topic()).remove(
                old(bus).id_index(self.spec_topic(), self.spec_id()),
            ),
            !old(bus).has(self.spec_topic(), self.spec_id()) ==> final(bus).registrations(
                self.spec_topic(),
            ) == old(bus).registrations(self.spec_topic()),
    {
        bus.unregister(self);
    }
}

/// For two distinct registrations on the same (type, topic), one post
/// delivers to both: the outcome set of a post, which covers exactly the
/// registered ids, contains each of them.
pub proof fn lemma_post_delivers_to_distinct_registrations<T, L>(
    bus: Eventbus<T, L>,
    k: Seq<u8>,
    id1: u64,
    id2: u64,
    delivered: Set<u64>,
)
    requires
        bus.has(k, id1),
        bus.has(k, id2),
        id1 != id2,
        delivered == bus.ids_at(k).to_set(),
    ensures
        delivered.contains(id1),
        delivered.contains(id2),
{
}

/// After unregistering the first of two distinct registrations on the same
/// topic, a post delivers to the second and no longer to the first.
pub proof fn lemma_post_after_unregister<T, L>(
    pre: Eventbus<T, L>,
    post_bus: Eventbus<T, L>,
    k: Seq<u8>,
    id1: u64,
    id2: u64,
    delivered: Set<u64>,
)
    requires
        pre.wf(),
        pre.has(k, id1),
        pre.has(k, id2),
        id1 != id2,
        post_bus.registrations(k) == pre.registrations(k).remove(pre.id_index(k, id1)),
        delivered == post_bus.ids_at(k).to_set(),
    ensures
        !delivered.contains(id1),
        delivered.contains(id2),
{
    let j = pre.id_index(k, id1);
    let ids = pre.ids_at(k);
    assert(0 <= j < ids.len() && ids[j] == id1);
    pre.lemma_ids_distinct(k);
    assert(post_bus.ids_at(k) =~= ids.remove(j)) by {
        pre.registrations(k).remove_ensures(j);
        ids.remove_ensures(j);
    }
    Eventbus::<T, L>::lemma_remove_keeps_distinct(ids, j);
    let x = choose|x: int| 0 <= x < ids.len() && ids[x] == id2;
    ids.remove_ensures(j);
    if x < j {
        assert(ids.remove(j)[x] == id2);
    } else {
        assert(x != j);
        assert(ids.remove(j)[x - 1] == id2);
    }
    assert(ids.remove(j).contains(id2));
}

/// Unregistering the same handle twice is a safe no-op the second time:
/// after the first removal the id is no longer registered, so a second
/// removal leaves every topic's registrations and the created cells as they
/// were.
pub proof fn lemma_unregister_twice_is_noop<T, L>(
    after_first: Eventbus<T, L>,
    after_second: Eventbus<T, L>,
    k: Seq<u8>,
    id: u64,
)
    requires
        !after_first.has(k, id),
        after_first.dom().contains(k),
        after_second.dom() == after_first.dom().insert(k),
        after_second.registrations(k) == after_first.registrations(k),
        forall|k2: Seq<u8>|
            k2 != k ==> #[trigger] after_second.registrations(k2) == after_first.registrations(k2),
    ensures
        after_second.dom() == after_first.dom(),
        forall|k2: Seq<u8>| #[trigger] after_second.registrations(k2) == after_first.registrations(
            k2,
        ),
{
    assert(after_second.dom() =~= after_first.dom());
}

/// A post is confined to its own typed registry: its outcomes name only ids
/// registered there for the event's topic. A listener registered for another
/// payload type lives in that type's registry and is never invoked, even on
/// the identical topic key.
pub proof fn lemma_post_confined_to_registry<T, L>(
    bus: Eventbus<T, L>,
    k: Seq<u8>,
    outcomes: Seq<(u64, Result<(), ListenerError>)>,
    foreign_id: u64,
)
    requires
        outcomes.map_values(|p: (u64, Result<(), ListenerError>)| p.0).to_set() == bus.ids_at(
            k,
        ).to_set(),
        !bus.has(k, foreign_id),
    ensures
        forall|i: int| 0 <= i < outcomes.len() ==> #[trigger] outcomes[i].0 != foreign_id,
{
    let mapped = outcomes.map_values(|p: (u64, Result<(), ListenerError>)| p.0);
    assert forall|i: int| 0 <= i < outcomes.len() implies #[trigger] outcomes[i].0
        != foreign_id by {
        if outcomes[i].0 == foreign_id {
            assert(mapped[i] == foreign_id);
            assert(mapped.to_set().contains(foreign_id));
            assert(bus.ids_at(k).contains(foreign_id));
        }
    }
}

/// A failing listener is isolated: the outcomes of one post cover every id
/// that was registered for the event's topic, whatever each invocation
/// returned, and the post itself returned its outcomes rather than an error.
pub proof fn lemma_listener_failure_is_isolated<T, L>(
    bus: Eventbus<T, L>,
    k: Seq<u8>,
    outcomes: Seq<(u64, Result<(), ListenerError>)>,
    id_other: u64,
)
    requires
        outcomes.map_values(|p: (u64, Result<(), ListenerError>)| p.0).to_set() == bus.ids_at(
            k,
        ).to_set(),
        bus.has(k, id_other),
    ensures
        exists|i: int| 0 <= i < outcomes.len() && #[trigger] outcomes[i].0 == id_other,
{
    let mapped = outcomes.map_values(|p: (u64, Result<(), ListenerError>)| p.0);
    assert(mapped.to_set().contains(id_other));
    let i = choose|i: int| 0 <= i < mapped.len() && mapped[i] == id_other;
    assert(outcomes[i].0 == id_other);
}

} // verus!
