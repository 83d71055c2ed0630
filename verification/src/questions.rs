//! Questions a plan asks its user that await an answer: each request id holds
//! the channel its answer goes to, until the answer comes or the question is
//! withdrawn.
use vstd::prelude::*;
use crate::keyed::{find_key, lemma_find_key, lemma_find_key_unique, lookup, stored, unique_keys, Keyed};
use crate::text::{chars_of, extend_str, str_eq, string_of};

verus! {

/// Pending questions: the reply channel of each open request, by request id.
pub struct PendingQuestions<S> {
    ids: Vec<String>,
    senders: Vec<S>,
}

impl<S> View for PendingQuestions<S> {
    type V = Keyed<S>;

    closed spec fn view(&self) -> Keyed<S> {
        Seq::new(self.ids@.len(), |i: int| (self.ids@[i]@, self.senders@[i]))
    }
}

/// The entries without the one under `k`, if there is one.
pub open spec fn without<V>(v: Keyed<V>, k: Seq<char>) -> Keyed<V> {
    match find_key(v, k) {
        Some(i) => v.remove(i),
        None => v,
    }
}

impl<S> PendingQuestions<S> {
    /// Both lists line up and no request id occurs twice.
    pub closed spec fn wf(&self) -> bool {
        &&& self.ids@.len() == self.senders@.len()
        &&& unique_keys(self@)
    }

    /// No question is pending.
    pub fn new() -> (r: Self)
        ensures
            r.wf(),
            r@ == Seq::<(Seq<char>, S)>::empty(),
    {
        let r = PendingQuestions { ids: Vec::new(), senders: Vec::new() };
        assert(r@ =~= Seq::<(Seq<char>, S)>::empty());
        r
    }

    fn index_of(&self, id: &str) -> (r: Option<usize>)
        requires
            self.wf(),
        ensures
            match r {
                Some(i) => find_key(self@, id@) == Some(i as int) && i < self.ids@.len(),
                None => find_key(self@, id@) is None,
            },
    {
        let mut i: usize = 0;
        while i < self.ids.len()
            invariant
                self.wf(),
                i <= self.ids@.len(),
                forall|j: int| 0 <= j < i ==> self@[j].0 != id@,
            decreases self.ids@.len() - i,
        {
            if str_eq(self.ids[i].as_str(), id) {
                proof {
                    lemma_find_key_unique(self@, id@, i as int);
                }
                return Some(i);
            }
            i += 1;
        }
        proof {
            lemma_find_key(self@, id@);
        }
        None
    }

    /// Registers the reply channel of request `request_id`; a channel already
    /// registered under that id is replaced.
    pub fn register_plan_question(&mut self, request_id: String, sender: S)
        requires
            old(self).wf(),
        ensures
            final(self).wf(),
            final(self)@ == stored(old(self)@, request_id@, sender),
    {
        let ghost k = request_id@;
        let ghost s0 = sender;
        proof {
            crate::keyed::lemma_store_then_get(old(self)@, k, s0, k);
        }
        match self.index_of(request_id.as_str()) {
            Some(i) => {
                proof {
                    lemma_find_key(old(self)@, k);
                }
                self.senders.set(i, sender);
                assert(self@ =~= old(self)@.update(i as int, (k, s0)));
            },
            None => {
                self.ids.push(request_id);
                self.senders.push(sender);
                assert(self@ =~= old(self)@.push((k, s0)));
            },
        }
    }

    /// Takes the reply channel of request `request_id` out, if it is pending.
    pub fn take(&mut self, request_id: &str) -> (r: Option<S>)
        requires
            old(self).wf(),
        ensures
            final(self).wf(),
            r == lookup(old(self)@, request_id@),
            final(self)@ == without(old(self)@, request_id@),
    {
        match self.index_of(request_id) {
            Some(i) => {
                proof {
                    crate::keyed::lemma_remove_then_get(old(self)@, request_id@, request_id@);
                }
                self.ids.remove(i);
                let s = self.senders.remove(i);
                assert(self@ =~= old(self)@.remove(i as int));
                Some(s)
            },
            None => None,
        }
    }

    /// The reply channel for the answers to request `request_id`, taken out
    /// (the caller sends the answers on it); an error naming the request when
    /// no such question is pending.
    pub fn submit_plan_question_response(&mut self, request_id: &str) -> (r: Result<S, String>)
        requires
            old(self).wf(),
        ensures
            final(self).wf(),
            final(self)@ == without(old(self)@, request_id@),
            match lookup(old(self)@, request_id@) {
                Some(s) => r == Ok::<S, String>(s),
                None => r matches Err(e) && e@ == "No pending plan question request: "@ + request_id@,
            },
    {
        match self.take(request_id) {
            Some(s) => Ok(s),
            None => {
                let mut m = chars_of("No pending plan question request: ");
                extend_str(&mut m, request_id);
                Err(string_of(m.as_slice()))
            },
        }
    }

    /// Withdraws request `request_id` (its channel is dropped).
    pub fn cancel_pending_plan_question(&mut self, request_id: &str)
        requires
            old(self).wf(),
        ensures
            final(self).wf(),
            final(self)@ == without(old(self)@, request_id@),
    {
        let _ = self.take(request_id);
    }
}

/// An answer reaches the channel registered last for its request, and only
/// once: after registering, the request's channel is the one registered;
/// answering or withdrawing it leaves no channel under that id and every
/// other request as it was.
pub proof fn lemma_register_then_answer<S>(v: Keyed<S>, k: Seq<char>, s: S, other: Seq<char>)
    requires
        unique_keys(v),
    ensures
        lookup(stored(v, k, s), k) == Some(s),
        lookup(without(stored(v, k, s), k), k) is None,
        other != k ==> lookup(without(stored(v, k, s), k), other) == lookup(v, other),
{
    crate::keyed::lemma_store_then_get(v, k, s, other);
    crate::keyed::lemma_find_key(stored(v, k, s), k);
    crate::keyed::lemma_remove_then_get(stored(v, k, s), k, other);
}

} // verus!
