//! The room store: the post history and the watcher list of every room.
//!
//! A room id is a 64-bit integer of which only the low 60 bits are
//! significant; every operation normalizes the id before any lookup or
//! insert, so two ids that agree on those bits name the same room. Posts
//! are append-only and index-stable; a room's watcher list never holds the
//! same peer twice.

use vstd::prelude::*;
use std::collections::HashMap;
use std::time::SystemTime;
use std::time::UNIX_EPOCH;
use vstd::string::StringExecFns;
use crate::codec::dec_chars;
use crate::codec::u64_dec_string;

verus! {

broadcast use {vstd::std_specs::hash::group_hash_axioms, vstd::seq_lib::group_filter_ensures};

/// A stored post: its binary payload and the millisecond timestamp taken
/// when it was appended.
pub type Post = (Vec<u8>, u64);

/// A peer is known to the store only by a plain identifier; the transport
/// layer maps each identifier to an address and an outbound delivery queue.
pub type Peer = u64;

/// Only the low 60 bits of a room id are significant.
pub const U60_MASK: u64 = 0xFFFFFFFFFFFFFFF;

/// The normalized form of a room id: its low 60 bits.
pub open spec fn mask(room: u64) -> u64 {
    room & U60_MASK
}

/// Normalizing is idempotent: a masked id is its own normal form.
pub proof fn lemma_mask_idempotent(x: u64)
    ensures
        mask(mask(x)) == mask(x),
{
    assert(x & 0xFFFFFFFFFFFFFFFu64 & 0xFFFFFFFFFFFFFFFu64 == x & 0xFFFFFFFFFFFFFFFu64)
        by (bit_vector);
}

/// The mathematical value of a stored post: payload bytes and timestamp.
pub open spec fn post_view(p: Post) -> (Seq<u8>, u64) {
    (p.0@, p.1)
}

/// The mathematical value of a room's post sequence.
pub open spec fn posts_view(s: Seq<Post>) -> Seq<(Seq<u8>, u64)> {
    s.map(|i: int, p: Post| post_view(p))
}

/// The posts whose index `i` satisfies `from <= i < to`, in index order.
/// An out-of-bounds or inverted range yields the empty sequence.
pub open spec fn fetch_range<T>(s: Seq<T>, from: u64, to: u64) -> Seq<T> {
    let hi = if to as int <= s.len() {
        to as int
    } else {
        s.len() as int
    };
    if from as int >= hi {
        Seq::empty()
    } else {
        s.subrange(from as int, hi)
    }
}

/// Fetching the range `[i, i+1)` of a room with more than `i` posts yields
/// exactly the post at index `i`.
pub proof fn lemma_fetch_single<T>(s: Seq<T>, i: u64, j: u64)
    requires
        (i as int) < s.len(),
        j as int == i as int + 1,
    ensures
        fetch_range(s, i, j) == seq![s[i as int]],
{
    assert(fetch_range(s, i, j) =~= seq![s[i as int]]);
}

/// Fetching an inverted range, or one that starts at or past the end of
/// the room, yields the empty sequence.
pub proof fn lemma_fetch_empty<T>(s: Seq<T>, from: u64, to: u64)
    requires
        from >= to || from as int >= s.len(),
    ensures
        fetch_range(s, from, to) == Seq::<T>::empty(),
{
}

/// What one WATCH request does to a room's watcher list: appends the peer
/// unless it is already registered.
pub open spec fn watch_step(ws: Seq<Peer>, peer: Peer) -> Seq<Peer> {
    if ws.contains(peer) {
        ws
    } else {
        ws.push(peer)
    }
}

/// Watching twice with the same peer leaves the watcher list exactly as
/// one watch left it, and an unwatch then removes that peer's one entry,
/// leaving no registration behind.
pub proof fn lemma_watch_twice_unwatch(ws: Seq<Peer>, peer: Peer)
    requires
        ws.no_duplicates(),
    ensures
        watch_step(watch_step(ws, peer), peer) == watch_step(ws, peer),
        watch_step(ws, peer).remove_value(peer).len() + 1 == watch_step(ws, peer).len(),
        !watch_step(ws, peer).remove_value(peer).contains(peer),
{
    let w = watch_step(ws, peer);
    lemma_push_contains(ws, peer, peer);
    assert(w.contains(peer));
    if !ws.contains(peer) {
        lemma_no_dup_push(ws, peer);
    }
    assert(w.no_duplicates());
    w.index_of_first_ensures(peer);
    let i = w.index_of_first(peer)->Some_0;
    w.remove_ensures(i);
    assert forall|j: int| 0 <= j < w.remove(i).len() implies w.remove(i)[j] != peer by {
        if j < i {
            assert(w.remove(i)[j] == w[j]);
        } else {
            assert(w.remove(i)[j] == w[j + 1]);
            assert(w[j + 1] != w[i]);
        }
    }
    assert(!w.remove_value(peer).contains(peer));
}

/// An element is in a pushed sequence exactly when it is the pushed one or
/// was already present.
pub proof fn lemma_push_contains<T>(s: Seq<T>, x: T, y: T)
    ensures
        s.push(x).contains(y) <==> (s.contains(y) || y == x),
{
    if s.contains(y) {
        let i = choose|i: int| 0 <= i < s.len() && s[i] == y;
        assert(s.push(x)[i] == y);
    }
    if y == x {
        assert(s.push(x)[s.len() as int] == y);
    }
    if s.push(x).contains(y) && y != x {
        let i = choose|i: int| 0 <= i < s.push(x).len() && s.push(x)[i] == y;
        assert(s[i] == y);
    }
}

proof fn lemma_no_dup_push<T>(s: Seq<T>, x: T)
    requires
        s.no_duplicates(),
        !s.contains(x),
    ensures
        s.push(x).no_duplicates(),
{
    let t = s.push(x);
    assert forall|i: int, j: int|
        0 <= i < t.len() && 0 <= j < t.len() && i != j implies t[i] != t[j] by {
        if i < s.len() && j < s.len() {
        } else if i < s.len() {
            assert(s[i] == t[i] && t[j] == x);
        } else {
            assert(s[j] == t[j] && t[i] == x);
        }
    }
}

proof fn lemma_no_dup_remove<T>(s: Seq<T>, k: int)
    requires
        s.no_duplicates(),
        0 <= k < s.len(),
    ensures
        s.remove(k).no_duplicates(),
{
    s.remove_ensures(k);
    let t = s.remove(k);
    assert forall|i: int, j: int|
        0 <= i < t.len() && 0 <= j < t.len() && i != j implies t[i] != t[j] by {
        let oi = if i < k { i } else { i + 1 };
        let oj = if j < k { j } else { j + 1 };
        assert(t[i] == s[oi] && t[j] == s[oj]);
    }
}

/// What removing a peer from every room does to one watcher list: keeps
/// exactly the entries for other peers, in order.
pub open spec fn sweep_step(ws: Seq<Peer>, peer: Peer) -> Seq<Peer> {
    ws.filter(|q: Peer| q != peer)
}

/// The text of the fetch error for a room that was never posted to,
/// naming the (un-normalized) id the request carried.
pub open spec fn room_missing_chars(room: u64) -> Seq<char> {
    "Room with id "@ + dec_chars(room) + " does not exist"@
}

fn room_missing_string(room: u64) -> (s: String)
    ensures
        s@ == room_missing_chars(room),
{
    let mut s = String::from_str("Room with id ");
    let digits = u64_dec_string(room);
    s.append(digits.as_str());
    s.append(" does not exist");
    s
}

/// Relies on std::time::SystemTime::now, read through duration_since: the
/// milliseconds since the Unix epoch, or zero if the clock reads before
/// the epoch. The value depends on the wall clock, so nothing is assumed
/// of it.
#[verifier::external_body]
pub(crate) fn now_millis() -> u64 {
    match SystemTime::now().duration_since(UNIX_EPOCH) {
        Ok(d) => d.as_millis() as u64,
        Err(_) => 0,
    }
}

fn clone_bytes(v: &Vec<u8>) -> (r: Vec<u8>)
    ensures
        r@ == v@,
{
    let mut r: Vec<u8> = Vec::new();
    let mut i: usize = 0;
    while i < v.len()
        invariant
            i <= v@.len(),
            r@ == v@.subrange(0, i as int),
        decreases v@.len() - i,
    {
        r.push(v[i]);
        i = i + 1;
        proof {
            assert(r@ =~= v@.subrange(0, i as int));
        }
    }
    proof {
        assert(r@ =~= v@);
    }
    r
}

pub(crate) fn clone_post(p: &Post) -> (r: Post)
    ensures
        post_view(r) == post_view(*p),
{
    (clone_bytes(&p.0), p.1)
}

pub(crate) fn clone_peers(v: &Vec<Peer>) -> (r: Vec<Peer>)
    ensures
        r@ == v@,
{
    let mut r: Vec<Peer> = Vec::new();
    let mut i: usize = 0;
    while i < v.len()
        invariant
            i <= v@.len(),
            r@ == v@.subrange(0, i as int),
        decreases v@.len() - i,
    {
        r.push(v[i]);
        i = i + 1;
        proof {
            assert(r@ =~= v@.subrange(0, i as int));
        }
    }
    proof {
        assert(r@ =~= v@);
    }
    r
}

fn contains_peer(ws: &Vec<Peer>, peer: Peer) -> (r: bool)
    ensures
        r == ws@.contains(peer),
{
    let mut i: usize = 0;
    while i < ws.len()
        invariant
            i <= ws@.len(),
            forall|j: int| 0 <= j < i ==> ws@[j] != peer,
        decreases ws@.len() - i,
    {
        if ws[i] == peer {
            return true;
        }
        i = i + 1;
    }
    false
}

fn remove_all(ws: Vec<Peer>, peer: Peer) -> (r: Vec<Peer>)
    ensures
        r@ == sweep_step(ws@, peer),
{
    let mut r: Vec<Peer> = Vec::new();
    let mut i: usize = 0;
    while i < ws.len()
        invariant
            i <= ws@.len(),
            r@ == sweep_step(ws@.subrange(0, i as int), peer),
        decreases ws@.len() - i,
    {
        proof {
            reveal_with_fuel(Seq::filter, 2);
            let pred = |q: Peer| q != peer;
            let pre = ws@.subrange(0, i as int);
            assert(pre.push(ws@[i as int]) =~= pre + seq![ws@[i as int]]);
            Seq::filter_distributes_over_add(pre, seq![ws@[i as int]], pred);
            assert(ws@.subrange(0, i as int + 1) =~= pre.push(ws@[i as int]));
        }
        if ws[i] != peer {
            r.push(ws[i]);
        }
        i = i + 1;
    }
    proof {
        assert(ws@.subrange(0, ws@.len() as int) =~= ws@);
    }
    r
}

/// The broker's shared state: every room's post history under
/// `room_posts` and its current watchers under `watch_list`, both keyed by
/// the masked room id. `watch_keys` lists exactly the keys of
/// `watch_list`, so a disconnect can sweep every room a peer may watch.
pub struct Database {
    pub room_posts: HashMap<u64, Vec<Post>>,
    pub watch_list: HashMap<u64, Vec<Peer>>,
    pub watch_keys: Vec<u64>,
}

impl Database {
    /// Whether the room has ever been posted to.
    pub open spec fn has_room(self, room: u64) -> bool {
        self.room_posts@.contains_key(mask(room))
    }

    /// The room's stored posts, oldest first; empty if never posted to.
    pub open spec fn posts_of(self, room: u64) -> Seq<(Seq<u8>, u64)> {
        if self.has_room(room) {
            posts_view(self.room_posts@[mask(room)]@)
        } else {
            Seq::empty()
        }
    }

    /// The room's current watchers, in registration order.
    pub open spec fn watchers_of(self, room: u64) -> Seq<Peer> {
        if self.watch_list@.contains_key(mask(room)) {
            self.watch_list@[mask(room)]@
        } else {
            Seq::empty()
        }
    }

    /// The store's invariant: every key is a normalized room id, no
    /// watcher list holds a peer twice, and `watch_keys` lists exactly
    /// the rooms with a watcher list.
    pub open spec fn wf(self) -> bool {
        &&& forall|k: u64| #[trigger] self.room_posts@.contains_key(k) ==> mask(k) == k
        &&& forall|k: u64| #[trigger] self.watch_list@.contains_key(k) ==> mask(k) == k
        &&& forall|k: u64|
            self.watch_list@.contains_key(k) ==> (#[trigger] self.watch_list@[k])@.no_duplicates()
        &&& forall|k: u64|
            #[trigger] self.watch_list@.contains_key(k) <==> self.watch_keys@.contains(k)
        &&& self.watch_keys@.no_duplicates()
    }

    /// A fresh store with no rooms and no watchers.
    pub fn new() -> (db: Database)
        ensures
            db.wf(),
            forall|room: u64| !db.has_room(room),
            forall|room: u64| db.posts_of(room) == Seq::<(Seq<u8>, u64)>::empty(),
            forall|room: u64| db.watchers_of(room) == Seq::<Peer>::empty(),
    {
        Database {
            room_posts: HashMap::new(),
            watch_list: HashMap::new(),
            watch_keys: Vec::new(),
        }
    }

    /// Appends a payload to the room, stamping it with the current
    /// wall-clock time in milliseconds, and returns the stored post. The
    /// room is created if absent; no other room and no watcher list is
    /// touched.
    pub fn save_post(&mut self, room_id: u64, data: Vec<u8>) -> (r: Post)
        requires
            old(self).wf(),
        ensures
            final(self).wf(),
            r.0@ == data@,
            final(self).has_room(room_id),
            final(self).posts_of(room_id) == old(self).posts_of(room_id).push((data@, r.1)),
            forall|other: u64|
                mask(other) != mask(room_id) ==> final(self).posts_of(other) == old(self).posts_of(other) && final(self).has_room(other) == old(self).has_room(other),
            forall|other: u64|
                final(self).watchers_of(other) == old(self).watchers_of(other),
    {
        let key = room_id & U60_MASK;
        let mut posts = match self.room_posts.remove(&key) {
            Some(v) => v,
            None => Vec::new(),
        };
        let ghost old_posts = posts@;
        let now = now_millis();
        let ret = (clone_bytes(&data), now);
        posts.push((data, now));
        self.room_posts.insert(key, posts);
        proof {
            lemma_mask_idempotent(room_id);
            assert(posts_view(old_posts.push((ret.0, now))) =~= posts_view(old_posts).push(
                (ret.0@, now),
            ));
            if !old(self).has_room(room_id) {
                assert(posts_view(old_posts) =~= Seq::<(Seq<u8>, u64)>::empty());
            }
        }
        ret
    }

    /// Returns the room's posts at indices in `[from_id, to_id)`, oldest
    /// first — an empty result when the range is empty or out of bounds —
    /// or an error naming the room id when the room has never been posted
    /// to. The store is left unchanged.
    pub fn get_post(&mut self, room_id: u64, from_id: u64, to_id: u64) -> (r: Result<
        Vec<Post>,
        String,
    >)
        ensures
            *final(self) == *old(self),
            r is Ok <==> old(self).has_room(room_id),
            r matches Ok(posts) ==> posts_view(posts@) == fetch_range(
                old(self).posts_of(room_id),
                from_id,
                to_id,
            ),
            r matches Err(msg) ==> msg@ == room_missing_chars(room_id),
    {
        let room_u60 = room_id & U60_MASK;
        match self.room_posts.get(&room_u60) {
            None => Err(room_missing_string(room_id)),
            Some(room) => {
                let ghost v = posts_view(room@);
                let n = room.len();
                let lo: usize = if from_id >= n as u64 {
                    n
                } else {
                    from_id as usize
                };
                let hi0: usize = if to_id >= n as u64 {
                    n
                } else {
                    to_id as usize
                };
                let hi: usize = if hi0 < lo {
                    lo
                } else {
                    hi0
                };
                let mut ret: Vec<Post> = Vec::new();
                let mut i: usize = lo;
                while i < hi
                    invariant
                        lo <= i <= hi <= n,
                        n == room@.len(),
                        v == posts_view(room@),
                        posts_view(ret@) == v.subrange(lo as int, i as int),
                    decreases hi - i,
                {
                    let p = clone_post(&room[i]);
                    proof {
                        assert(posts_view(ret@.push(p)) =~= posts_view(ret@).push(post_view(p)));
                        assert(v.subrange(lo as int, i as int).push(v[i as int]) =~= v.subrange(
                            lo as int,
                            i as int + 1,
                        ));
                    }
                    ret.push(p);
                    i = i + 1;
                }
                proof {
                    assert(posts_view(Seq::<Post>::empty()) =~= Seq::<(Seq<u8>, u64)>::empty());
                    assert(posts_view(ret@) =~= fetch_range(v, from_id, to_id));
                }
                Ok(ret)
            },
        }
    }

    /// A snapshot of the room's current watchers, in registration order.
    pub fn watchers(&self, room_id: u64) -> (ws: Vec<Peer>)
        ensures
            ws@ == self.watchers_of(room_id),
    {
        match self.watch_list.get(&(room_id & U60_MASK)) {
            None => Vec::new(),
            Some(v) => clone_peers(v),
        }
    }

    /// Registers the peer as a watcher of the room unless it already is
    /// one; the room's watcher list is created if absent. Posts and other
    /// rooms' watchers are untouched.
    pub fn watch_room(&mut self, room_id: u64, peer: Peer)
        requires
            old(self).wf(),
        ensures
            final(self).wf(),
            final(self).watchers_of(room_id) == watch_step(
                old(self).watchers_of(room_id),
                peer,
            ),
            forall|other: u64|
                mask(other) != mask(room_id) ==> final(self).watchers_of(other) == old(self).watchers_of(other),
            forall|other: u64|
                final(self).posts_of(other) == old(self).posts_of(other) && final(self).has_room(other) == old(self).has_room(other),
    {
        let key = room_id & U60_MASK;
        let mut ws = match self.watch_list.remove(&key) {
            Some(v) => v,
            None => {
                self.watch_keys.push(key);
                Vec::new()
            },
        };
        let ghost old_ws = ws@;
        let ghost had_room = old(self).watch_list@.contains_key(key);
        if !contains_peer(&ws, peer) {
            ws.push(peer);
        }
        self.watch_list.insert(key, ws);
        proof {
            lemma_mask_idempotent(room_id);
            if !old_ws.contains(peer) {
                lemma_no_dup_push(old_ws, peer);
            }
            if !had_room {
                assert(old_ws =~= Seq::<Peer>::empty());
                assert(!old(self).watch_keys@.contains(key));
                lemma_no_dup_push(old(self).watch_keys@, key);
                assert forall|k: u64|
                    #[trigger] self.watch_list@.contains_key(k)
                        <==> self.watch_keys@.contains(k) by {
                    lemma_push_contains(old(self).watch_keys@, key, k);
                }
            }
        }
    }

    /// Removes the peer's registration from the room, if any: the first
    /// (and, by the invariant, only) matching entry leaves the watcher
    /// list. A no-op for an unknown room or an unregistered peer.
    pub fn unwatch_room(&mut self, room_id: u64, peer: Peer)
        requires
            old(self).wf(),
        ensures
            final(self).wf(),
            final(self).watchers_of(room_id) == old(self).watchers_of(room_id).remove_value(
                peer,
            ),
            forall|other: u64|
                mask(other) != mask(room_id) ==> final(self).watchers_of(other) == old(self).watchers_of(other),
            forall|other: u64|
                final(self).posts_of(other) == old(self).posts_of(other) && final(self).has_room(other) == old(self).has_room(other),
    {
        let key = room_id & U60_MASK;
        proof {
            lemma_mask_idempotent(room_id);
        }
        match self.watch_list.remove(&key) {
            None => {
                proof {
                    Seq::<Peer>::empty().index_of_first_ensures(peer);
                    assert(old(self).watchers_of(room_id) =~= Seq::<Peer>::empty());
                }
            },
            Some(mut ws) => {
                let ghost orig = ws@;
                let mut i: usize = 0;
                while i < ws.len() && ws[i] != peer
                    invariant
                        i <= ws@.len(),
                        ws@ == orig,
                        forall|j: int| 0 <= j < i ==> ws@[j] != peer,
                    decreases ws@.len() - i,
                {
                    i = i + 1;
                }
                proof {
                    orig.index_of_first_ensures(peer);
                }
                if i < ws.len() {
                    proof {
                        assert(orig.contains(peer));
                        let idx = orig.index_of_first(peer)->Some_0;
                        assert(orig[idx] == peer);
                        assert(idx == i as int);
                        lemma_no_dup_remove(orig, i as int);
                    }
                    ws.remove(i);
                } else {
                    proof {
                        assert(!orig.contains(peer));
                    }
                }
                self.watch_list.insert(key, ws);
            },
        }
    }

    /// Used on disconnect: removes every registration of the peer, in
    /// every room, leaving all other watchers and all posts untouched.
    pub fn remove_peer_everywhere(&mut self, peer: Peer)
        requires
            old(self).wf(),
        ensures
            final(self).wf(),
            forall|room: u64|
                final(self).watchers_of(room) == sweep_step(old(self).watchers_of(room), peer),
            forall|room: u64|
                final(self).posts_of(room) == old(self).posts_of(room) && final(self).has_room(room) == old(self).has_room(room),
    {
        let n = self.watch_keys.len();
        let mut idx: usize = 0;
        while idx < n
            invariant
                idx <= n,
                n == self.watch_keys@.len(),
                self.watch_keys@ == old(self).watch_keys@,
                self.room_posts@ == old(self).room_posts@,
                old(self).wf(),
                forall|k: u64|
                    #[trigger] self.watch_list@.contains_key(k) == old(self).watch_list@.contains_key(k),
                forall|j: int|
                    0 <= j < idx ==> self.watch_list@[self.watch_keys@[j]]@ == sweep_step(
                        old(self).watch_list@[#[trigger] self.watch_keys@[j]]@,
                        peer,
                    ),
                forall|j: int|
                    idx <= j < n ==> self.watch_list@[#[trigger] self.watch_keys@[j]] == old(self).watch_list@[self.watch_keys@[j]],
            decreases n - idx,
        {
            let key = self.watch_keys[idx];
            proof {
                assert(self.watch_keys@.contains(key));
                assert(old(self).watch_list@.contains_key(key));
            }
            let ws = self.watch_list.remove(&key).unwrap();
            let filtered = remove_all(ws, peer);
            self.watch_list.insert(key, filtered);
            idx = idx + 1;
            proof {
                assert forall|j: int| 0 <= j < idx - 1 implies self.watch_keys@[j] != key by {
                    assert(self.watch_keys@[idx - 1] == key);
                }
            }
        }
        proof {
            assert forall|room: u64|
                final(self).watchers_of(room) == sweep_step(
                    old(self).watchers_of(room),
                    peer,
                ) by {
                let k = mask(room);
                if old(self).watch_list@.contains_key(k) {
                    assert(old(self).watch_keys@.contains(k));
                    let j = choose|j: int|
                        0 <= j < old(self).watch_keys@.len() && old(self).watch_keys@[j] == k;
                    assert(self.watch_list@[k]@ == sweep_step(old(self).watch_list@[k]@, peer));
                } else {
                    Seq::<Peer>::empty().lemma_filter_len(|q: Peer| q != peer);
                    assert(sweep_step(Seq::<Peer>::empty(), peer) =~= Seq::<Peer>::empty());
                }
            }
            assert forall|k: u64|
                self.watch_list@.contains_key(k) implies (#[trigger] self.watch_list@[k])@
                .no_duplicates() by {
                let j = choose|j: int|
                    0 <= j < old(self).watch_keys@.len() && old(self).watch_keys@[j] == k;
                sweep_no_dup(old(self).watch_list@[k]@, peer);
            }
        }
    }
}

proof fn sweep_no_dup(ws: Seq<Peer>, peer: Peer)
    requires
        ws.no_duplicates(),
    ensures
        sweep_step(ws, peer).no_duplicates(),
        forall|x: Peer| #[trigger] sweep_step(ws, peer).contains(x) ==> ws.contains(x),
    decreases ws.len(),
{
    reveal_with_fuel(Seq::filter, 2);
    let pred = |q: Peer| q != peer;
    if ws.len() == 0 {
    } else {
        let prefix = ws.drop_last();
        assert forall|i: int, j: int|
            0 <= i < prefix.len() && 0 <= j < prefix.len() && i != j implies prefix[i]
            != prefix[j] by {
            assert(prefix[i] == ws[i] && prefix[j] == ws[j]);
        }
        sweep_no_dup(prefix, peer);
        assert forall|x: Peer| #[trigger] prefix.contains(x) implies ws.contains(x) by {
            let i = choose|i: int| 0 <= i < prefix.len() && prefix[i] == x;
            assert(ws[i] == x);
        }
        if pred(ws.last()) {
            assert(sweep_step(ws, peer) == sweep_step(prefix, peer).push(ws.last()));
            assert(!prefix.contains(ws.last())) by {
                if prefix.contains(ws.last()) {
                    let i = choose|i: int| 0 <= i < prefix.len() && prefix[i] == ws.last();
                    assert(ws[i] == ws[ws.len() - 1]);
                }
            }
            lemma_no_dup_push(sweep_step(prefix, peer), ws.last());
            assert forall|x: Peer| #[trigger] sweep_step(ws, peer).contains(x) implies ws.contains(
                x,
            ) by {
                lemma_push_contains(sweep_step(prefix, peer), ws.last(), x);
                if x == ws.last() {
                    assert(ws[ws.len() - 1] == x);
                }
            }
        } else {
            assert(sweep_step(ws, peer) == sweep_step(prefix, peer));
        }
    }
}

/// Two room ids that agree on their low 60 bits name the same room: the
/// store reads the same posts, the same existence, and the same watchers
/// through either id.
pub proof fn lemma_room_alias(db: Database, r1: u64, r2: u64)
    requires
        mask(r1) == mask(r2),
    ensures
        db.posts_of(r1) == db.posts_of(r2),
        db.has_room(r1) == db.has_room(r2),
        db.watchers_of(r1) == db.watchers_of(r2),
{
}

} // verus!
