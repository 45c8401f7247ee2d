use vstd::prelude::*;

verus! {

/// A chunk of a request body and whether it is the last one.
pub type BodyChunk = (Vec<u8>, bool);

/// The body assembled from `chunks`: the bytes of every chunk up to and including the
/// first final one (all of them if none is final).
pub open spec fn assembled(chunks: Seq<(Seq<u8>, bool)>) -> Seq<u8>
    decreases chunks.len(),
{
    if chunks.len() == 0 {
        Seq::empty()
    } else if chunks[0].1 {
        chunks[0].0
    } else {
        chunks[0].0 + assembled(chunks.drop_first())
    }
}

/// Collects the chunks of a request body as they arrive.
pub struct BodyCollector {
    data: Vec<u8>,
    finished: bool,
    received: Ghost<Seq<(Seq<u8>, bool)>>,
}

impl BodyCollector {
    /// The bytes collected so far.
    pub closed spec fn spec_data(&self) -> Seq<u8> {
        self.data@
    }

    /// Whether the final chunk has arrived.
    pub closed spec fn spec_finished(&self) -> bool {
        self.finished
    }

    /// The chunks received so far, in order.
    pub closed spec fn spec_received(&self) -> Seq<(Seq<u8>, bool)> {
        self.received@
    }

    /// The collected bytes are the body assembled from the chunks received, and the
    /// collector is finished exactly when one of them was final.
    pub closed spec fn wf(&self) -> bool {
        &&& self.data@ == assembled(self.received@)
        &&& self.finished == exists|i: int|
            0 <= i < self.received@.len() && (#[trigger] self.received@[i]).1
    }

    pub fn new() -> (r: Self)
        ensures
            r.wf(),
            r.spec_received() == Seq::<(Seq<u8>, bool)>::empty(),
            r.spec_data() == Seq::<u8>::empty(),
            !r.spec_finished(),
    {
        BodyCollector { data: Vec::new(), finished: false, received: Ghost(Seq::empty()) }
    }

    pub fn is_finished(&self) -> (r: bool)
        ensures
            r == self.spec_finished(),
    {
        self.finished
    }

    /// Appends a chunk; a final chunk ends the body.
    pub fn push_chunk(&mut self, chunk: &[u8], is_fin: bool)
        requires
            old(self).wf(),
            !old(self).spec_finished(),
            old(self).spec_data().len() + chunk@.len() <= usize::MAX,
        ensures
            final(self).wf(),
            final(self).spec_received() == old(self).spec_received().push((chunk@, is_fin)),
            final(self).spec_data() == old(self).spec_data() + chunk@,
            final(self).spec_finished() == is_fin,
    {
        let n = chunk.len();
        let mut i: usize = 0;
        let ghost start = self.data@;
        let ghost before = self.received@;
        assert(start == assembled(before));
        assert(!(exists|k: int| 0 <= k < before.len() && (#[trigger] before[k]).1));
        while i < n
            invariant
                n == chunk@.len(),
                i <= n,
                self.data@ =~= start + chunk@.take(i as int),
                start.len() + n <= usize::MAX,
            decreases n - i,
        {
            self.data.push(chunk[i]);
            i = i + 1;
        }
        proof {
            assert(chunk@.take(n as int) =~= chunk@);
            lemma_assembled_step(before, (chunk@, is_fin));
            self.received = Ghost(before.push((chunk@, is_fin)));
            let after = self.received@;
            if is_fin {
                assert(after[before.len() as int].1);
            } else {
                assert forall|k: int| 0 <= k < after.len() implies !(#[trigger] after[k]).1 by {
                    if k < before.len() {
                        assert(after[k] == before[k]);
                    }
                }
            }
        }
        self.finished = is_fin;
        assert(self.data@ == assembled(self.received@));
    }

    /// The body, or `None` when no byte arrived.
    pub fn into_body(self) -> (r: Option<Vec<u8>>)
        ensures
            self.spec_data().len() == 0 ==> r is None,
            self.spec_data().len() > 0 ==> (r matches Some(b) && b@ == self.spec_data()),
    {
        if self.data.len() == 0 {
            None
        } else {
            Some(self.data)
        }
    }
}

/// Appending a chunk after chunks none of which was final appends its bytes to the
/// assembled body.
pub proof fn lemma_assembled_step(done: Seq<(Seq<u8>, bool)>, next: (Seq<u8>, bool))
    requires
        forall|i: int| 0 <= i < done.len() ==> !(#[trigger] done[i]).1,
    ensures
        assembled(done.push(next)) == assembled(done) + next.0,
    decreases done.len(),
{
    let all = done.push(next);
    assert(all.len() > 0);
    if done.len() == 0 {
        assert(all[0] == next);
        assert(all.drop_first() =~= Seq::<(Seq<u8>, bool)>::empty());
        assert(assembled(done) == Seq::<u8>::empty());
        assert(Seq::<u8>::empty() + next.0 =~= next.0);
        if !next.1 {
            assert(assembled(all) == next.0 + assembled(all.drop_first()));
            assert(next.0 + Seq::<u8>::empty() =~= next.0);
        }
    } else {
        assert(!done[0].1);
        let rest = done.drop_first();
        assert forall|i: int| 0 <= i < rest.len() implies !(#[trigger] rest[i]).1 by {
            assert(rest[i] == done[i + 1]);
        }
        lemma_assembled_step(rest, next);
        assert(all.drop_first() =~= rest.push(next));
        assert(all[0] == done[0]);
        assert(assembled(all) == done[0].0 + assembled(rest.push(next)));
        assert(assembled(done) == done[0].0 + assembled(rest));
        assert(done[0].0 + (assembled(rest) + next.0) =~= (done[0].0 + assembled(rest)) + next.0);
    }
}

/// Takes the body source out of `slot`; a body can be read only once.
pub fn take_once<B>(slot: &mut Option<B>) -> (r: Result<B, String>)
    ensures
        *final(slot) is None,
        *old(slot) matches Some(b) ==> r == Ok::<B, String>(b),
        *old(slot) is None ==> (r matches Err(e) && e@ == "Body could be read only once"@),
{
    match slot.take() {
        Some(b) => Ok(b),
        None => Err("Body could be read only once".to_owned()),
    }
}

} // verus!
