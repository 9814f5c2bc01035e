//! Per-connection session state.
//!
//! A session holds the subscription keys its connection cares about and
//! dispatches the three request kinds.  The backend performing the actual
//! hash and watch work is a trait, so the dispatcher's own behavior — how
//! the subscription set changes, which response shape goes back — is
//! verified independently of any backend.

use vstd::prelude::*;

use crate::protocol::{
    make_subscription_key, spec_subscription_key, Request, Response, SubscriptionKey,
};

verus! {

/// What processing one request yields.
pub enum RequestResult {
    /// Send the response to the client.
    Response(Response),
    /// Send the response and register the subscription globally.
    Subscribe { response: Response, key: SubscriptionKey },
    /// Send the response and evaluate watcher teardown for the key.
    Unsubscribe { response: Response, key: SubscriptionKey },
}

/// The operations a session delegates: computing a hash and installing a
/// watcher.  The daemon implements it over its shared state; tests may
/// substitute their own.
pub trait SessionBackend {
    /// Answer a hash query: the formatted digest and the file count, or an
    /// error text.
    fn hash(&self, root: &String, path: &String, glob: &String, persistent: bool) -> Result<
        (String, usize),
        String,
    >;

    /// Ensure a watcher for the tuple's root; an error text on failure.
    fn watch(&self, root: &String, path: &String, glob: &String) -> Result<(), String>;
}

/// Keep a subscription key different from `key`.
pub open spec fn not_key(key: Seq<char>) -> spec_fn(String) -> bool {
    |s: String| s@ != key
}

/// Per-connection state: the subscription keys this connection receives
/// events for.
pub struct Session {
    subscriptions: Vec<String>,
}

impl View for Session {
    type V = Set<Seq<char>>;

    /// The set of subscribed keys.
    closed spec fn view(&self) -> Set<Seq<char>> {
        Set::new(
            |k: Seq<char>|
                exists|i: int|
                    0 <= i < self.subscriptions@.len() && self.subscriptions@[i]@ == k,
        )
    }
}

impl Session {
    pub fn new() -> (r: Session)
        ensures
            r@ == Set::<Seq<char>>::empty(),
    {
        let r = Session { subscriptions: Vec::new() };
        proof {
            assert(r@ =~= Set::<Seq<char>>::empty());
        }
        r
    }

    /// Whether an event with this key is written to this connection.
    pub fn should_receive_event(&self, key: &SubscriptionKey) -> (r: bool)
        ensures
            r == self@.contains(key@),
    {
        let mut i: usize = 0;
        while i < self.subscriptions.len()
            invariant
                i <= self.subscriptions@.len(),
                forall|k: int| 0 <= k < i ==> self.subscriptions@[k]@ != key@,
            decreases self.subscriptions@.len() - i,
        {
            if self.subscriptions[i] == *key {
                proof {
                    assert(self@.contains(key@));
                }
                return true;
            }
            i = i + 1;
        }
        false
    }

    fn insert_key(&mut self, key: String)
        ensures
            final(self)@ == old(self)@.insert(key@),
    {
        if self.should_receive_event(&key) {
            proof {
                assert(final(self)@ =~= old(self)@.insert(key@));
            }
            return ;
        }
        self.subscriptions.push(key);
        proof {
            assert forall|q: Seq<char>|
                final(self)@.contains(q) == old(self)@.insert(key@).contains(q) by {
                if q == key@ {
                    assert(self.subscriptions@[self.subscriptions@.len() - 1]@ == q);
                } else {
                    if final(self)@.contains(q) {
                        let i = choose|i: int|
                            0 <= i < self.subscriptions@.len() && self.subscriptions@[i]@ == q;
                        assert(old(self).subscriptions@[i]@ == q);
                    }
                    if old(self)@.contains(q) {
                        let i = choose|i: int|
                            0 <= i < old(self).subscriptions@.len() && old(
                                self,
                            ).subscriptions@[i]@ == q;
                        assert(self.subscriptions@[i]@ == q);
                    }
                }
            }
            assert(final(self)@ =~= old(self)@.insert(key@));
        }
    }

    fn remove_key(&mut self, key: &String)
        ensures
            final(self)@ == old(self)@.remove(key@),
    {
        let ghost keepf = not_key(key@);
        let mut kept: Vec<String> = Vec::new();
        let mut i: usize = 0;
        proof {
            reveal(Seq::filter);
            assert(kept@ =~= self.subscriptions@.take(0).filter(keepf));
        }
        while i < self.subscriptions.len()
            invariant
                i <= self.subscriptions@.len(),
                self.subscriptions@ == old(self).subscriptions@,
                keepf == not_key(key@),
                kept@ == self.subscriptions@.take(i as int).filter(keepf),
            decreases self.subscriptions@.len() - i,
        {
            proof {
                crate::kv::lemma_filter_take_step(self.subscriptions@, i as int, keepf);
            }
            if !(self.subscriptions[i] == *key) {
                let s = self.subscriptions[i].clone();
                kept.push(s);
            }
            i = i + 1;
        }
        let ghost kept_seq = kept@;
        let ghost old_subs = self.subscriptions@;
        proof {
            assert(old_subs.take(old_subs.len() as int) =~= old_subs);
        }
        self.subscriptions = kept;
        proof {
            assert forall|q: Seq<char>|
                final(self)@.contains(q) == old(self)@.remove(key@).contains(q) by {
                if final(self)@.contains(q) {
                    let m = choose|m: int| 0 <= m < kept_seq.len() && kept_seq[m]@ == q;
                    old_subs.lemma_filter_pred(keepf, m);
                    old_subs.lemma_filter_contains_rev(keepf, kept_seq[m]);
                    let k = choose|k: int| 0 <= k < old_subs.len() && old_subs[k] == kept_seq[m];
                    assert(old(self).subscriptions@[k]@ == q);
                }
                if old(self)@.remove(key@).contains(q) {
                    let k = choose|k: int| 0 <= k < old_subs.len() && old_subs[k]@ == q;
                    assert(keepf(old_subs[k]));
                    old_subs.lemma_filter_contains(keepf, k);
                    let m = choose|m: int| 0 <= m < kept_seq.len() && kept_seq[m] == old_subs[k];
                    assert(final(self).subscriptions@[m]@ == q);
                }
            }
            assert(final(self)@ =~= old(self)@.remove(key@));
        }
    }

    /// Turn the backend's answer to a watch request into the session's
    /// result: acceptance subscribes this session to the key and responds
    /// with it; refusal leaves the session unchanged and responds with the
    /// prefixed error text.
    pub fn apply_watch_outcome(&mut self, key: SubscriptionKey, outcome: Result<(), String>) -> (r:
        RequestResult)
        ensures
            outcome is Ok ==> (r matches RequestResult::Subscribe { response, key: k } && k@
                == key@ && final(self)@ == old(self)@.insert(key@) && response == Response::Watch {
                key: k,
            }),
            outcome matches Err(e) ==> (r matches RequestResult::Response(resp) && resp
                matches Response::Error { error } && final(self)@ == old(self)@ && error@
                == "Failed to start watcher: "@ + e@),
    {
        match outcome {
            Ok(()) => {
                let registered = key.clone();
                let respond_with = key.clone();
                self.insert_key(registered);
                RequestResult::Subscribe { response: Response::Watch { key: respond_with }, key }
            },
            Err(e) => {
                let mut msg = failed_watch_prefix();
                msg.append(e.as_str());
                RequestResult::Response(Response::Error { error: msg })
            },
        }
    }

    /// Dispatch one request.  A hash request leaves the session unchanged;
    /// a watch request subscribes this session to the tuple's key once the
    /// backend accepted it; an unwatch request unsubscribes its key and
    /// never fails, known key or not.
    pub fn process_request<B: SessionBackend>(&mut self, request: Request, backend: &B) -> (r:
        RequestResult)
        ensures
            request matches Request::Hash { root, path, glob, persistent } ==> {
                &&& final(self)@ == old(self)@
                &&& r matches RequestResult::Response(resp)
                &&& (resp matches Response::Hash { hash, file_count } || resp
                    matches Response::Error { error })
            },
            request matches Request::Watch { root, path, glob } ==> {
                &&& (r matches RequestResult::Subscribe { response, key } ==> {
                    &&& key@ == spec_subscription_key(root@, path@, glob@)
                    &&& final(self)@ == old(self)@.insert(key@)
                    &&& response == Response::Watch { key: key }
                })
                &&& (r matches RequestResult::Response(resp) ==> (resp matches Response::Error {
                    error,
                } && final(self)@ == old(self)@))
                &&& (r is Subscribe || r is Response)
            },
            request matches Request::Unwatch { key } ==> {
                &&& final(self)@ == old(self)@.remove(key@)
                &&& r == RequestResult::Unsubscribe {
                    response: Response::Okay { ok: true },
                    key: key,
                }
                &&& !final(self)@.contains(key@)
            },
    {
        match request {
            Request::Hash { root, path, glob, persistent } => {
                apply_hash_outcome(backend.hash(&root, &path, &glob, persistent))
            },
            Request::Watch { root, path, glob } => {
                let key = make_subscription_key(root.as_str(), path.as_str(), glob.as_str());
                self.apply_watch_outcome(key, backend.watch(&root, &path, &glob))
            },
            Request::Unwatch { key } => {
                self.remove_key(&key);
                RequestResult::Unsubscribe { response: Response::Okay { ok: true }, key }
            },
        }
    }
}

/// Turn the backend's answer to a hash request into the response the
/// client sees: the digest and file count on success, the error text
/// verbatim on failure.
pub fn apply_hash_outcome(outcome: Result<(String, usize), String>) -> (r: RequestResult)
    ensures
        outcome matches Ok(hn) ==> r == RequestResult::Response(
            Response::Hash { hash: hn.0, file_count: hn.1 },
        ),
        outcome matches Err(e) ==> r == RequestResult::Response(Response::Error { error: e }),
{
    match outcome {
        Ok((hash, file_count)) => RequestResult::Response(Response::Hash { hash, file_count }),
        Err(e) => RequestResult::Response(Response::Error { error: e }),
    }
}

impl Default for Session {
    fn default() -> (r: Session)
        ensures
            r@ == Set::<Seq<char>>::empty(),
    {
        Session::new()
    }
}

fn failed_watch_prefix() -> (r: String)
    ensures
        r@ == "Failed to start watcher: "@,
{
    let s: &str = "Failed to start watcher: ";
    s.to_owned()
}

/// Once a session has processed `unwatch(key)`, no event with that key is
/// written to it: its subscription set no longer contains the key, and
/// event delivery tests exactly that set.
pub proof fn lemma_unwatched_key_silenced(subs: Set<Seq<char>>, key: Seq<char>)
    ensures
        !subs.remove(key).contains(key),
{
}

} // verus!
