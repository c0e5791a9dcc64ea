//! The filtering engine as the rule compiler sees it: a session is opened,
//! enforcement units are submitted and come back as identifiers, identifiers
//! are deleted, the session is closed.

use vstd::prelude::*;
use crate::condition::{EnforcementUnit, UnitView};

verus! {

/// A session with a filtering engine.
#[derive(Clone, Debug, PartialEq, Eq)]
pub enum SessionHandle {
    /// The handle that a native engine returned.
    Native(u64),
    /// No real handle: a label that describes the simulation.
    Simulated(String),
}

/// The session could not be opened, most often for want of privileges.
#[derive(Clone, Copy, Debug, PartialEq, Eq, Structural)]
pub struct SessionOpenFailed;

/// The session could not be closed.
#[derive(Clone, Copy, Debug, PartialEq, Eq, Structural)]
pub struct SessionCloseFailed;

/// An identifier could not be deleted.
#[derive(Clone, Copy, Debug, PartialEq, Eq, Structural)]
pub struct DeleteFailed;

/// Why the engine refused an enforcement unit.
#[derive(Clone, Copy, Debug, PartialEq, Eq, Structural)]
pub enum SubmitFailed {
    AccessDenied,
    InvalidParameter,
    NotSupported,
    AlreadyExists,
    NotFound,
    Unknown,
}

impl SubmitFailed {
    /// The reason that a system error code stands for.
    pub open spec fn spec_from_code(code: u32) -> SubmitFailed {
        if code == 5 {
            SubmitFailed::AccessDenied
        } else if code == 87 {
            SubmitFailed::InvalidParameter
        } else if code == 50 {
            SubmitFailed::NotSupported
        } else if code == 183 {
            SubmitFailed::AlreadyExists
        } else if code == 1168 {
            SubmitFailed::NotFound
        } else {
            SubmitFailed::Unknown
        }
    }

    /// Names the reason behind the error code of a refused submission:
    /// 5 is access denied, 87 an invalid parameter, 50 not supported,
    /// 183 already exists, 1168 not found.
    #[verifier::when_used_as_spec(spec_from_code)]
    pub fn from_code(code: u32) -> (r: SubmitFailed)
        ensures
            r == SubmitFailed::spec_from_code(code),
    {
        match code {
            5 => SubmitFailed::AccessDenied,
            87 => SubmitFailed::InvalidParameter,
            50 => SubmitFailed::NotSupported,
            183 => SubmitFailed::AlreadyExists,
            1168 => SubmitFailed::NotFound,
            _ => SubmitFailed::Unknown,
        }
    }
}

/// What the rule compiler needs of a filtering engine. An implementation
/// may talk to the outside world, so the trait promises nothing of what its
/// methods return. Beside each method stands a relation in which a backend
/// says itself what it makes of the request; a backend that says nothing,
/// as one that answers for the outside world must, admits every outcome.
pub trait Backend {
    /// What this backend makes of a request to open a session: whether
    /// `outcome` can come back from the backend as it is in `self` and
    /// leave it as it is in `after`.
    open spec fn opening(
        &self,
        outcome: Result<SessionHandle, SessionOpenFailed>,
        after: &Self,
    ) -> bool {
        true
    }

    /// Opens a session.
    fn open_session(&mut self) -> (r: Result<SessionHandle, SessionOpenFailed>)
        ensures
            old(self).opening(r, final(self)),
    ;

    /// What this backend makes of one submission: whether, when `unit` is
    /// submitted under `name` in `session` to the backend as it is in
    /// `self`, `outcome` can come back and leave the backend as it is in
    /// `after`.
    open spec fn submission(
        &self,
        session: &SessionHandle,
        unit: UnitView,
        name: Seq<char>,
        outcome: Result<u64, SubmitFailed>,
        after: &Self,
    ) -> bool {
        true
    }

    /// Installs one enforcement unit under the given display name and
    /// returns the identifier of the new filter.
    fn submit(&mut self, session: &SessionHandle, unit: &EnforcementUnit, name: &str) -> (r: Result<
        u64,
        SubmitFailed,
    >)
        ensures
            old(self).submission(session, unit@, name@, r, final(self)),
    ;

    /// What this backend makes of a request to delete `id` in `session`:
    /// whether `outcome` can come back from the backend as it is in `self`
    /// and leave it as it is in `after`.
    open spec fn deletion(
        &self,
        session: &SessionHandle,
        id: u64,
        outcome: Result<(), DeleteFailed>,
        after: &Self,
    ) -> bool {
        true
    }

    /// Removes the filter with the given identifier.
    fn delete(&mut self, session: &SessionHandle, id: u64) -> (r: Result<(), DeleteFailed>)
        ensures
            old(self).deletion(session, id, r, final(self)),
    ;

    /// What this backend makes of a request to close `session`: whether
    /// `outcome` can come back from the backend as it is in `self` and
    /// leave it as it is in `after`.
    open spec fn closing(
        &self,
        session: &SessionHandle,
        outcome: Result<(), SessionCloseFailed>,
        after: &Self,
    ) -> bool {
        true
    }

    /// Closes the session.
    fn close_session(&mut self, session: &SessionHandle) -> (r: Result<(), SessionCloseFailed>)
        ensures
            old(self).closing(session, r, final(self)),
    ;
}

/// `s` without its first occurrence of `id`.
pub open spec fn without_first(s: Seq<u64>, id: u64) -> Seq<u64>
    decreases s.len(),
{
    if s.len() == 0 {
        s
    } else if s[0] == id {
        s.drop_first()
    } else {
        seq![s[0]] + without_first(s.drop_first(), id)
    }
}

/// Where `id` first occurs at position `pos`, removing its first occurrence
/// removes position `pos`.
pub proof fn lemma_without_first_at(s: Seq<u64>, id: u64, pos: int)
    requires
        0 <= pos < s.len(),
        s[pos] == id,
        forall|j: int| 0 <= j < pos ==> s[j] != id,
    ensures
        without_first(s, id) == s.remove(pos),
    decreases pos,
{
    if pos == 0 {
        assert(s.remove(0) =~= s.drop_first());
    } else {
        let rest = s.drop_first();
        assert forall|j: int| 0 <= j < pos - 1 implies rest[j] != id by {
            assert(rest[j] == s[j + 1]);
        }
        lemma_without_first_at(rest, id, pos - 1);
        assert(s.remove(pos) =~= seq![s[0]] + rest.remove(pos - 1));
    }
}

/// Where `id` does not occur, removing its first occurrence changes nothing.
pub proof fn lemma_without_first_absent(s: Seq<u64>, id: u64)
    requires
        !s.contains(id),
    ensures
        without_first(s, id) == s,
    decreases s.len(),
{
    if s.len() > 0 {
        assert(s[0] != id);
        let rest = s.drop_first();
        assert forall|j: int| 0 <= j < rest.len() implies rest[j] != id by {
            assert(rest[j] == s[j + 1]);
        }
        lemma_without_first_absent(rest, id);
        assert(seq![s[0]] + rest =~= s);
    }
}

/// Removing the first occurrence of an identifier that occurs makes the
/// sequence one shorter. It keeps every other identifier, and brings in
/// none.
pub proof fn lemma_without_first_keeps(s: Seq<u64>, id: u64)
    ensures
        s.contains(id) ==> without_first(s, id).len() + 1 == s.len(),
        forall|x: u64|
            #![trigger without_first(s, id).contains(x)]
            #![trigger s.contains(x)]
            x != id ==> (without_first(s, id).contains(x) <==> s.contains(x)),
        forall|x: u64| #[trigger] without_first(s, id).contains(x) ==> s.contains(x),
        s.no_duplicates() ==> without_first(s, id).no_duplicates() && !without_first(
            s,
            id,
        ).contains(id),
    decreases s.len(),
{
    let w = without_first(s, id);
    if s.len() == 0 {
    } else if s[0] == id {
        let rest = s.drop_first();
        assert(s.contains(id));
        assert forall|x: u64| rest.contains(x) implies s.contains(x) by {
            let k = choose|k: int| 0 <= k < rest.len() && rest[k] == x;
            assert(s[k + 1] == x);
        }
        assert forall|x: u64| x != id && s.contains(x) implies rest.contains(x) by {
            let k = choose|k: int| 0 <= k < s.len() && s[k] == x;
            assert(rest[k - 1] == x);
        }
        if s.no_duplicates() {
            assert forall|a: int, b: int| 0 <= a < rest.len() && 0 <= b < rest.len() && a
                != b implies rest[a] != rest[b] by {
                assert(rest[a] == s[a + 1] && rest[b] == s[b + 1]);
            }
            if rest.contains(id) {
                let k = choose|k: int| 0 <= k < rest.len() && rest[k] == id;
                assert(s[k + 1] == id);
            }
        }
    } else {
        let rest = s.drop_first();
        let wr = without_first(rest, id);
        lemma_without_first_keeps(rest, id);
        assert(w =~= seq![s[0]] + wr);
        if s.contains(id) {
            let k = choose|k: int| 0 <= k < s.len() && s[k] == id;
            assert(rest[k - 1] == id);
            assert(rest.contains(id));
        }
        assert forall|x: u64| w.contains(x) implies s.contains(x) by {
            let k = choose|k: int| 0 <= k < w.len() && w[k] == x;
            if k == 0 {
                assert(s[0] == x);
            } else {
                assert(wr[k - 1] == x);
                assert(wr.contains(x));
                let m = choose|m: int| 0 <= m < rest.len() && rest[m] == x;
                assert(s[m + 1] == x);
            }
        }
        assert forall|x: u64| x != id && s.contains(x) implies w.contains(x) by {
            let k = choose|k: int| 0 <= k < s.len() && s[k] == x;
            if k == 0 {
                assert(w[0] == x);
            } else {
                assert(rest[k - 1] == x);
                assert(rest.contains(x));
                let m = choose|m: int| 0 <= m < wr.len() && wr[m] == x;
                assert(w[m + 1] == x);
            }
        }
        if s.no_duplicates() {
            assert forall|a: int, b: int| 0 <= a < rest.len() && 0 <= b < rest.len() && a
                != b implies rest[a] != rest[b] by {
                assert(rest[a] == s[a + 1] && rest[b] == s[b + 1]);
            }
            assert forall|a: int, b: int| 0 <= a < w.len() && 0 <= b < w.len() && a
                != b implies w[a] != w[b] by {
                if a > 0 && b > 0 {
                    assert(w[a] == wr[a - 1] && w[b] == wr[b - 1]);
                } else {
                    let o = if a == 0 {
                        b
                    } else {
                        a
                    };
                    assert(w[o] == wr[o - 1]);
                    assert(wr.contains(w[o]));
                    let m = choose|m: int| 0 <= m < rest.len() && rest[m] == w[o];
                    assert(s[m + 1] == w[o]);
                }
            }
            if w.contains(id) {
                let k = choose|k: int| 0 <= k < w.len() && w[k] == id;
                assert(wr[k - 1] == id);
                assert(wr.contains(id));
            }
        }
    }
}

/// Removes the first occurrence of `id` from `v` and tells whether there
/// was one.
pub fn remove_first(v: &mut Vec<u64>, id: u64) -> (found: bool)
    ensures
        found == old(v)@.contains(id),
        final(v)@ == without_first(old(v)@, id),
{
    let mut i: usize = 0;
    while i < v.len()
        invariant
            i <= v.len(),
            v@ == old(v)@,
            forall|j: int| 0 <= j < i ==> v@[j] != id,
        decreases v.len() - i,
    {
        if v[i] == id {
            proof {
                lemma_without_first_at(v@, id, i as int);
            }
            v.remove(i);
            return true;
        }
        i = i + 1;
    }
    proof {
        lemma_without_first_absent(v@, id);
    }
    false
}

/// A stand-in for platforms without a native engine. It only keeps books:
/// identifiers are handed out from one counter that starts at 1 and never
/// goes back, and the identifiers that are live are remembered.
#[derive(Clone, Debug, PartialEq, Eq)]
pub struct SimBackend {
    pub label: String,
    pub next_id: u64,
    pub live: Vec<u64>,
}

impl SimBackend {
    /// Every live identifier was handed out by the counter, and none is
    /// live twice.
    pub open spec fn wf(&self) -> bool {
        &&& self.next_id >= 1
        &&& self.live@.no_duplicates()
        &&& forall|i: int| 0 <= i < self.live@.len() ==> 1 <= #[trigger] self.live@[i] < self.next_id
    }

    /// A simulation that describes itself by `label`.
    pub fn new(label: &str) -> (b: SimBackend)
        ensures
            b.label@ == label@,
            b.next_id == 1,
            b.live@.len() == 0,
            b.wf(),
    {
        SimBackend { label: label.to_owned(), next_id: 1, live: Vec::new() }
    }
}

impl Backend for SimBackend {
    /// A session always opens, with the simulation's label in place of a
    /// handle, and nothing changes.
    open spec fn opening(
        &self,
        outcome: Result<SessionHandle, SessionOpenFailed>,
        after: &Self,
    ) -> bool {
        &&& outcome matches Ok(SessionHandle::Simulated(label)) && label@ == self.label@
        &&& *after == *self
    }

    /// Always succeeds, with the simulation's label in place of a handle.
    fn open_session(&mut self) -> (r: Result<SessionHandle, SessionOpenFailed>)
        ensures
            r matches Ok(SessionHandle::Simulated(label)) && label@ == old(self).label@,
            *final(self) == *old(self),
    {
        Ok(SessionHandle::Simulated(self.label.clone()))
    }

    /// The next identifier of the counter comes back and is live from then
    /// on, whatever is submitted; once the counter is exhausted, nothing
    /// changes and the submission fails.
    open spec fn submission(
        &self,
        session: &SessionHandle,
        unit: UnitView,
        name: Seq<char>,
        outcome: Result<u64, SubmitFailed>,
        after: &Self,
    ) -> bool {
        if self.next_id < u64::MAX {
            &&& outcome == Ok::<u64, SubmitFailed>(self.next_id)
            &&& after.next_id == self.next_id + 1
            &&& after.live@ == self.live@.push(self.next_id)
            &&& after.label == self.label
        } else {
            &&& outcome == Err::<u64, SubmitFailed>(SubmitFailed::Unknown)
            &&& *after == *self
        }
    }

    /// Hands out the next identifier. It fails only when the counter is
    /// exhausted.
    fn submit(&mut self, session: &SessionHandle, unit: &EnforcementUnit, name: &str) -> (r: Result<
        u64,
        SubmitFailed,
    >)
        ensures
            old(self).next_id < u64::MAX ==> r == Ok::<u64, SubmitFailed>(old(self).next_id)
                && final(self).next_id == old(self).next_id + 1
                && final(self).live@ == old(self).live@.push(old(self).next_id),
            old(self).next_id == u64::MAX ==> r == Err::<u64, SubmitFailed>(SubmitFailed::Unknown)
                && *final(self) == *old(self),
            final(self).label == old(self).label,
            old(self).wf() ==> final(self).wf(),
    {
        if self.next_id == u64::MAX {
            return Err(SubmitFailed::Unknown);
        }
        let id = self.next_id;
        self.next_id = id + 1;
        self.live.push(id);
        proof {
            if old(self).wf() {
                assert forall|i: int, j: int|
                    0 <= i < self.live@.len() && 0 <= j < self.live@.len() && i
                        != j implies self.live@[i] != self.live@[j] by {
                    if i < old(self).live@.len() {
                        assert(self.live@[i] == old(self).live@[i]);
                    }
                    if j < old(self).live@.len() {
                        assert(self.live@[j] == old(self).live@[j]);
                    }
                }
                assert forall|i: int| 0 <= i < self.live@.len() implies 1 <= #[trigger] self.live@[i]
                    < self.next_id by {
                    if i < old(self).live@.len() {
                        assert(self.live@[i] == old(self).live@[i]);
                    }
                }
            }
        }
        Ok(id)
    }

    /// An identifier is deleted exactly if it is live, and is live no
    /// longer afterwards.
    open spec fn deletion(
        &self,
        session: &SessionHandle,
        id: u64,
        outcome: Result<(), DeleteFailed>,
        after: &Self,
    ) -> bool {
        &&& outcome is Ok <==> self.live@.contains(id)
        &&& after.live@ == without_first(self.live@, id)
        &&& after.next_id == self.next_id
        &&& after.label == self.label
    }

    /// Succeeds exactly if the identifier is live, and forgets it.
    fn delete(&mut self, session: &SessionHandle, id: u64) -> (r: Result<(), DeleteFailed>)
        ensures
            r is Ok <==> old(self).live@.contains(id),
            final(self).live@ == without_first(old(self).live@, id),
            final(self).next_id == old(self).next_id,
            final(self).label == old(self).label,
            old(self).wf() ==> final(self).wf(),
    {
        proof {
            lemma_without_first_keeps(self.live@, id);
            let w = without_first(self.live@, id);
            if self.wf() {
                assert forall|i: int| 0 <= i < w.len() implies 1 <= #[trigger] w[i]
                    < self.next_id by {
                    assert(w.contains(w[i]));
                    let k = choose|k: int| 0 <= k < self.live@.len() && self.live@[k] == w[i];
                    assert(1 <= self.live@[k] < self.next_id);
                }
            }
        }
        if remove_first(&mut self.live, id) {
            Ok(())
        } else {
            Err(DeleteFailed)
        }
    }

    /// A session always closes, and nothing changes.
    open spec fn closing(
        &self,
        session: &SessionHandle,
        outcome: Result<(), SessionCloseFailed>,
        after: &Self,
    ) -> bool {
        &&& outcome is Ok
        &&& *after == *self
    }

    /// Always succeeds.
    fn close_session(&mut self, session: &SessionHandle) -> (r: Result<(), SessionCloseFailed>)
        ensures
            r is Ok,
            *final(self) == *old(self),
    {
        Ok(())
    }
}

} // verus!
