//! The set of live sinks, in acceptance order, and what each has been sent.

use vstd::prelude::*;

verus! {

broadcast use Seq::lemma_flatten_push;

/// Ids strictly increasing: acceptance order, with no id twice.
pub open spec fn ascending(ids: Seq<u64>) -> bool {
    forall|i: int, j: int| 0 <= i < j < ids.len() ==> ids[i] < ids[j]
}

/// The ids whose flag in `ok` is set, in their order in `ids`.
pub open spec fn kept(ids: Seq<u64>, ok: Seq<bool>) -> Seq<u64>
    decreases ids.len(),
{
    if ids.len() == 0 {
        Seq::empty()
    } else {
        let n = ids.len() - 1;
        let rest = kept(ids.take(n), ok.take(n));
        if ok[n] {
            rest.push(ids[n])
        } else {
            rest
        }
    }
}

/// The ids whose flag in `ok` is clear, in their order in `ids`.
pub open spec fn dropped(ids: Seq<u64>, ok: Seq<bool>) -> Seq<u64>
    decreases ids.len(),
{
    if ids.len() == 0 {
        Seq::empty()
    } else {
        let n = ids.len() - 1;
        let rest = dropped(ids.take(n), ok.take(n));
        if ok[n] {
            rest
        } else {
            rest.push(ids[n])
        }
    }
}

/// Filtering keeps acceptance order, keeps exactly the flagged ids, and
/// drops exactly the others.
pub proof fn lemma_kept(ids: Seq<u64>, ok: Seq<bool>)
    requires
        ids.len() == ok.len(),
        ascending(ids),
    ensures
        ascending(kept(ids, ok)),
        ascending(dropped(ids, ok)),
        forall|i: int| 0 <= i < ids.len() ==> (#[trigger] kept(ids, ok).contains(ids[i]) <==> ok[i]),
        forall|i: int| 0 <= i < ids.len() ==> (#[trigger] dropped(ids, ok).contains(ids[i]) <==> !ok[i]),
        forall|x: u64| #[trigger] kept(ids, ok).contains(x) ==> ids.contains(x),
        forall|x: u64| #[trigger] dropped(ids, ok).contains(x) ==> ids.contains(x),
    decreases ids.len(),
{
    if ids.len() > 0 {
        let n = ids.len() - 1;
        let pi = ids.take(n);
        let po = ok.take(n);
        lemma_kept(pi, po);
        let k = kept(pi, po);
        let d = dropped(pi, po);
        assert forall|x: u64| k.contains(x) || d.contains(x) implies x < ids[n] by {
            if k.contains(x) {
                assert(pi.contains(x));
            } else {
                assert(pi.contains(x));
            }
        }
        assert forall|i: int, j: int| 0 <= i < j < k.len() + 1 implies #[trigger] k.push(ids[n])[i]
            < #[trigger] k.push(ids[n])[j] by {
            if j == k.len() {
                assert(k.contains(k[i]));
            }
        }
        assert forall|i: int, j: int| 0 <= i < j < d.len() + 1 implies #[trigger] d.push(ids[n])[i]
            < #[trigger] d.push(ids[n])[j] by {
            if j == d.len() {
                assert(d.contains(d[i]));
            }
        }
        assert forall|i: int| 0 <= i < ids.len() implies (#[trigger] kept(ids, ok).contains(ids[i])
            <==> ok[i]) by {
            if i < n {
                assert(pi[i] == ids[i]);
                if ok[n] {
                    assert(k.push(ids[n]).contains(ids[i]) <==> k.contains(ids[i])) by {
                        if k.push(ids[n]).contains(ids[i]) {
                            let j = choose|j: int| 0 <= j < k.len() + 1 && k.push(ids[n])[j] == ids[i];
                            if j < k.len() {
                                assert(k[j] == ids[i]);
                            }
                        }
                        if k.contains(ids[i]) {
                            let j = choose|j: int| 0 <= j < k.len() && k[j] == ids[i];
                            assert(k.push(ids[n])[j] == ids[i]);
                        }
                    }
                }
            } else {
                if ok[n] {
                    assert(k.push(ids[n])[k.len() as int] == ids[n]);
                } else {
                    assert(!k.contains(ids[n]));
                }
            }
        }
        assert forall|i: int| 0 <= i < ids.len() implies (#[trigger] dropped(ids, ok).contains(ids[i])
            <==> !ok[i]) by {
            if i < n {
                assert(pi[i] == ids[i]);
                if !ok[n] {
                    assert(d.push(ids[n]).contains(ids[i]) <==> d.contains(ids[i])) by {
                        if d.push(ids[n]).contains(ids[i]) {
                            let j = choose|j: int| 0 <= j < d.len() + 1 && d.push(ids[n])[j] == ids[i];
                            if j < d.len() {
                                assert(d[j] == ids[i]);
                            }
                        }
                        if d.contains(ids[i]) {
                            let j = choose|j: int| 0 <= j < d.len() && d[j] == ids[i];
                            assert(d.push(ids[n])[j] == ids[i]);
                        }
                    }
                }
            } else {
                if !ok[n] {
                    assert(d.push(ids[n])[d.len() as int] == ids[n]);
                } else {
                    assert(!d.contains(ids[n]));
                }
            }
        }
        assert forall|x: u64| #[trigger] kept(ids, ok).contains(x) implies ids.contains(x) by {
            if k.contains(x) {
                let j = choose|j: int| 0 <= j < pi.len() && pi[j] == x;
                assert(ids[j] == x);
            } else {
                assert(ids[n] == x);
            }
        }
        assert forall|x: u64| #[trigger] dropped(ids, ok).contains(x) implies ids.contains(x) by {
            if d.contains(x) {
                let j = choose|j: int| 0 <= j < pi.len() && pi[j] == x;
                assert(ids[j] == x);
            } else {
                assert(ids[n] == x);
            }
        }
    }
}

/// The live sinks. Each has an id, handed out in increasing order as sinks are
/// accepted; the caller keeps the connection under that id.
///
/// The model records the payload of every completed broadcast round, the
/// number of rounds completed when each sink was accepted, and the bytes that
/// each sink has been sent in full.
pub struct SinkRegistry {
    ids: Vec<u64>,
    next_id: u64,
    rounds: Ghost<Seq<Seq<u8>>>,
    joined: Ghost<Map<u64, nat>>,
    received: Ghost<Map<u64, Seq<u8>>>,
}

impl SinkRegistry {
    /// Ids of the live sinks, in acceptance order.
    pub closed spec fn live(&self) -> Seq<u64> {
        self.ids@
    }

    /// The id that the next accepted sink gets.
    pub closed spec fn next_id(&self) -> u64 {
        self.next_id
    }

    /// Payloads of the completed rounds, oldest first.
    pub closed spec fn rounds(&self) -> Seq<Seq<u8>> {
        self.rounds@
    }

    /// Number of rounds completed when sink `id` was accepted.
    pub closed spec fn joined_at(&self, id: u64) -> nat {
        self.joined@[id]
    }

    /// The bytes sink `id` has been sent, in the order sent.
    pub closed spec fn received(&self, id: u64) -> Seq<u8> {
        self.received@[id]
    }

    /// Every byte relayed so far, in order.
    pub open spec fn relayed(&self) -> Seq<u8> {
        self.rounds().flatten()
    }

    pub closed spec fn wf(&self) -> bool {
        &&& ascending(self.ids@)
        &&& forall|i: int| 0 <= i < self.ids@.len() ==> #[trigger] self.ids@[i] < self.next_id
        &&& forall|i: int|
            0 <= i < self.ids@.len() ==> {
                let id = #[trigger] self.ids@[i];
                &&& self.joined@.contains_key(id)
                &&& self.received@.contains_key(id)
                &&& self.joined@[id] <= self.rounds@.len()
                &&& self.received@[id] == self.rounds@.subrange(
                    self.joined@[id] as int,
                    self.rounds@.len() as int,
                ).flatten()
            }
    }

    /// An empty registry: no sink, no round.
    pub fn new() -> (r: SinkRegistry)
        ensures
            r.wf(),
            r.live() == Seq::<u64>::empty(),
            r.rounds() == Seq::<Seq<u8>>::empty(),
            r.next_id() == 0,
    {
        SinkRegistry {
            ids: Vec::new(),
            next_id: 0,
            rounds: Ghost(Seq::empty()),
            joined: Ghost(Map::empty()),
            received: Ghost(Map::empty()),
        }
    }

    /// Number of live sinks.
    pub fn len(&self) -> (r: usize)
        ensures
            r == self.live().len(),
    {
        self.ids.len()
    }

    /// Id of the `i`-th live sink in acceptance order.
    pub fn id_at(&self, i: usize) -> (r: u64)
        requires
            i < self.live().len(),
        ensures
            r == self.live()[i as int],
    {
        self.ids[i]
    }

    /// Appends a newly accepted sink and returns its id. It has been sent
    /// nothing, and takes part from the next round on.
    ///
    /// Returns `None`, and changes nothing, once every id has been handed out.
    pub fn add(&mut self) -> (r: Option<u64>)
        requires
            old(self).wf(),
        ensures
            final(self).wf(),
            final(self).rounds() == old(self).rounds(),
            r is None <==> old(self).next_id() == u64::MAX,
            r is None ==> *final(self) == *old(self),
            r matches Some(id) ==> {
                &&& id == old(self).next_id()
                &&& final(self).next_id() == id + 1
                &&& !old(self).live().contains(id)
                &&& final(self).live() == old(self).live().push(id)
                &&& final(self).joined_at(id) == old(self).rounds().len()
                &&& final(self).received(id) == Seq::<u8>::empty()
                &&& forall|x: u64|
                    #[trigger] old(self).live().contains(x) ==> final(self).received(x) == old(
                        self,
                    ).received(x) && final(self).joined_at(x) == old(self).joined_at(x)
            },
    {
        if self.next_id == u64::MAX {
            return None;
        }
        let id = self.next_id;
        proof {
            assert(!self.ids@.contains(id)) by {
                if self.ids@.contains(id) {
                    let j = choose|j: int| 0 <= j < self.ids@.len() && self.ids@[j] == id;
                    assert(self.ids@[j] < self.next_id);
                }
            }
            assert forall|x: u64| #[trigger] self.ids@.contains(x) implies x != id by {}
            let n = self.rounds@.len() as int;
            assert(self.rounds@.subrange(n, n) =~= Seq::<Seq<u8>>::empty());
            self.joined@ = self.joined@.insert(id, self.rounds@.len());
            self.received@ = self.received@.insert(id, Seq::empty());
        }
        self.ids.push(id);
        self.next_id = self.next_id + 1;
        proof {
            assert forall|i: int| 0 <= i < self.ids@.len() - 1 implies #[trigger] self.ids@[i]
                != id by {
                assert(old(self).ids@.contains(self.ids@[i]));
            }
        }
        Some(id)
    }

    /// Ends a broadcast round of `data`. `ok[i]` says whether the `i`-th live
    /// sink took the whole payload. Those sinks stay, in their order, and have
    /// been sent `data`; the others are removed, and their ids are returned in
    /// acceptance order.
    pub fn complete_round(&mut self, data: &Vec<u8>, ok: &Vec<bool>) -> (gone: Vec<u64>)
        requires
            old(self).wf(),
            ok@.len() == old(self).live().len(),
        ensures
            final(self).wf(),
            final(self).rounds() == old(self).rounds().push(data@),
            final(self).next_id() == old(self).next_id(),
            final(self).live() == kept(old(self).live(), ok@),
            gone@ == dropped(old(self).live(), ok@),
            forall|i: int|
                0 <= i < old(self).live().len() ==> (#[trigger] final(self).live().contains(
                    old(self).live()[i],
                ) <==> ok@[i]),
            forall|x: u64|
                #[trigger] final(self).live().contains(x) ==> {
                    &&& old(self).live().contains(x)
                    &&& final(self).joined_at(x) == old(self).joined_at(x)
                    &&& final(self).received(x) == old(self).received(x) + data@
                },
    {
        let ghost old_ids = self.ids@;
        let ghost new_rounds = self.rounds@.push(data@);
        let mut keep: Vec<u64> = Vec::new();
        let mut gone: Vec<u64> = Vec::new();
        let mut i: usize = 0;
        proof {
            lemma_kept(old_ids, ok@);
        }
        while i < self.ids.len()
            invariant
                self.ids@ == old_ids,
                ok@.len() == old_ids.len(),
                i <= old_ids.len(),
                keep@ == kept(old_ids.take(i as int), ok@.take(i as int)),
                gone@ == dropped(old_ids.take(i as int), ok@.take(i as int)),
            decreases old_ids.len() - i,
        {
            proof {
                assert(old_ids.take(i + 1).take(i as int) =~= old_ids.take(i as int));
                assert(ok@.take(i + 1).take(i as int) =~= ok@.take(i as int));
            }
            if ok[i] {
                keep.push(self.ids[i]);
            } else {
                gone.push(self.ids[i]);
            }
            i = i + 1;
        }
        proof {
            assert(old_ids.take(old_ids.len() as int) =~= old_ids);
            assert(ok@.take(ok@.len() as int) =~= ok@);
            let k = kept(old_ids, ok@);
            let mut rec = self.received@;
            assert forall|x: u64| #[trigger] k.contains(x) implies old_ids.contains(x) by {}
            self.received@ = Map::new(
                |x: u64| self.received@.contains_key(x),
                |x: u64|
                    if k.contains(x) {
                        self.received@[x] + data@
                    } else {
                        self.received@[x]
                    },
            );
            assert forall|i: int| 0 <= i < k.len() implies {
                let id = #[trigger] k[i];
                &&& self.joined@.contains_key(id)
                &&& self.received@.contains_key(id)
                &&& self.joined@[id] <= new_rounds.len()
                &&& self.received@[id] == new_rounds.subrange(
                    self.joined@[id] as int,
                    new_rounds.len() as int,
                ).flatten()
            } by {
                let id = k[i];
                assert(k.contains(id));
                let j = choose|j: int| 0 <= j < old_ids.len() && old_ids[j] == id;
                assert(old_ids[j] == id);
                let s = self.joined@[id] as int;
                let old_part = self.rounds@.subrange(s, self.rounds@.len() as int);
                assert(new_rounds.subrange(s, new_rounds.len() as int) =~= old_part.push(data@));
            }
            assert forall|i: int| 0 <= i < k.len() implies #[trigger] k[i] < self.next_id by {
                assert(k.contains(k[i]));
            }
            self.rounds@ = new_rounds;
        }
        self.ids = keep;
        gone
    }
}

/// A live sink has been sent exactly the payloads of the rounds completed
/// since it was accepted, each whole, in order, once.
pub proof fn lemma_sink_gets_rounds_since_join(r: SinkRegistry, id: u64)
    requires
        r.wf(),
        r.live().contains(id),
    ensures
        r.joined_at(id) <= r.rounds().len(),
        r.received(id) == r.rounds().subrange(r.joined_at(id) as int, r.rounds().len() as int).flatten(),
{
    let j = choose|j: int| 0 <= j < r.live().len() && r.live()[j] == id;
    assert(r.live()[j] == id);
}

/// A sink accepted after `n` bytes had been relayed has been sent none of
/// them: what it received is exactly the relayed stream from byte `n` on.
pub proof fn lemma_late_join_skips_earlier_bytes(r: SinkRegistry, id: u64)
    requires
        r.wf(),
        r.live().contains(id),
    ensures
        ({
            let n = r.rounds().take(r.joined_at(id) as int).flatten().len();
            &&& n <= r.relayed().len()
            &&& r.received(id) == r.relayed().subrange(n as int, r.relayed().len() as int)
        }),
{
    lemma_sink_gets_rounds_since_join(r, id);
    let rs = r.rounds();
    let j = r.joined_at(id) as int;
    vstd::seq_lib::lemma_flatten_concat(rs.take(j), rs.subrange(j, rs.len() as int));
    assert(rs.take(j) + rs.subrange(j, rs.len() as int) =~= rs);
    let n = rs.take(j).flatten().len();
    assert(r.relayed().subrange(n as int, r.relayed().len() as int) =~= r.received(id));
}

/// Every round completed since a sink was accepted sits whole in what the
/// sink received, right after the rounds before it: no sink is sent a round
/// from its middle.
pub proof fn lemma_round_arrives_whole(r: SinkRegistry, id: u64, k: int)
    requires
        r.wf(),
        r.live().contains(id),
        r.joined_at(id) <= k < r.rounds().len(),
    ensures
        ({
            let off = r.rounds().subrange(r.joined_at(id) as int, k).flatten().len();
            &&& off + r.rounds()[k].len() <= r.received(id).len()
            &&& r.received(id).subrange(off as int, (off + r.rounds()[k].len()) as int) == r.rounds()[k]
        }),
{
    lemma_sink_gets_rounds_since_join(r, id);
    let rs = r.rounds();
    let j = r.joined_at(id) as int;
    let before = rs.subrange(j, k);
    let this = seq![rs[k]];
    let after = rs.subrange(k + 1, rs.len() as int);
    assert(rs.subrange(j, rs.len() as int) =~= before + (this + after));
    vstd::seq_lib::lemma_flatten_concat(before, this + after);
    vstd::seq_lib::lemma_flatten_concat(this, after);
    this.lemma_flatten_one_element();
    let off = before.flatten().len();
    assert(r.received(id).subrange(off as int, (off + rs[k].len()) as int) =~= rs[k]);
}

} // verus!
