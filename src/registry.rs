use vstd::prelude::*;
use vstd::string::StringExecFns;

verus! {

/// Outcome of a claim of `name` against the held names `held`: whether it
/// succeeds, and the held names afterwards.
pub open spec fn claim_outcome(held: Set<Seq<char>>, name: Seq<char>) -> (bool, Set<Seq<char>>) {
    if held.contains(name) {
        (false, held)
    } else {
        (true, held.insert(name))
    }
}

/// The display names held by active sessions. Each name is held at most
/// once.
pub struct NameRegistry {
    pub names: Vec<String>,
}

impl NameRegistry {
    /// The held names, in order of claim.
    pub open spec fn held(&self) -> Seq<Seq<char>> {
        self.names@.map_values(|s: String| s@)
    }

    pub open spec fn wf(&self) -> bool {
        self.held().no_duplicates()
    }
}

impl View for NameRegistry {
    type V = Set<Seq<char>>;

    open spec fn view(&self) -> Set<Seq<char>> {
        self.held().to_set()
    }
}

impl NameRegistry {
    pub fn new() -> (r: NameRegistry)
        ensures
            r.wf(),
            r@ == Set::<Seq<char>>::empty(),
    {
        let r = NameRegistry { names: Vec::new() };
        assert(r.held() =~= Seq::<Seq<char>>::empty());
        assert(r@ =~= Set::<Seq<char>>::empty());
        r
    }

    /// Whether an active session holds `name`.
    pub fn contains(&self, name: &str) -> (r: bool)
        ensures
            r == self@.contains(name@),
    {
        let target = String::from_str(name);
        let mut i: usize = 0;
        while i < self.names.len()
            invariant
                i <= self.names.len(),
                target@ == name@,
                forall|j: int| 0 <= j < i ==> self.held()[j] != name@,
            decreases self.names.len() - i,
        {
            if self.names[i] == target {
                assert(self.held()[i as int] == name@);
                assert(self@.contains(name@));
                return true;
            }
            i += 1;
        }
        assert(!self@.contains(name@)) by {
            if self@.contains(name@) {
                let j = self.held().index_of(name@);
                assert(self.held()[j] == name@);
            }
        }
        false
    }

    /// Claims `name` for a new session, in one check-and-insert step. Fails,
    /// changing nothing, when an active session already holds it.
    pub fn claim(&mut self, name: &str) -> (r: bool)
        requires
            old(self).wf(),
        ensures
            final(self).wf(),
            (r, final(self)@) == claim_outcome(old(self)@, name@),
    {
        if self.contains(name) {
            return false;
        }
        let ghost before = self.held();
        self.names.push(String::from_str(name));
        assert(self.held() =~= before.push(name@));
        proof {
            before.lemma_push_to_set_commute(name@);
        }
        true
    }

    /// Releases `name`, so that a later session can claim it.
    pub fn release(&mut self, name: &str)
        requires
            old(self).wf(),
        ensures
            final(self).wf(),
            final(self)@ == old(self)@.remove(name@),
    {
        let target = String::from_str(name);
        let mut i: usize = 0;
        while i < self.names.len()
            invariant
                i <= self.names.len(),
                target@ == name@,
                self == old(self),
                self.wf(),
                forall|j: int| 0 <= j < i ==> self.held()[j] != name@,
            decreases self.names.len() - i,
        {
            if self.names[i] == target {
                let ghost before = self.held();
                assert(before[i as int] == name@);
                self.names.remove(i);
                assert(self.held() =~= before.remove(i as int));
                assert(before == old(self).held());
                let ghost after = self.held();
                assert forall|j: int| 0 <= j < after.len() implies #[trigger] after[j] == (if j < i {
                    before[j]
                } else {
                    before[j + 1]
                }) by {}
                assert(after.no_duplicates()) by {
                    assert forall|j: int, k: int|
                        0 <= j < after.len() && 0 <= k < after.len() && j != k implies after[j]
                        != after[k] by {
                        let jj = if j < i { j } else { j + 1 };
                        let kk = if k < i { k } else { k + 1 };
                        assert(after[j] == before[jj]);
                        assert(after[k] == before[kk]);
                    }
                }
                assert forall|x: Seq<char>| self@.contains(x) <==> old(self)@.remove(name@).contains(
                    x,
                ) by {
                    if after.contains(x) {
                        let j = after.index_of(x);
                        let jj = if j < i { j } else { j + 1 };
                        assert(after[j] == before[jj]);
                        assert(before.contains(x));
                        assert(x != name@);
                    }
                    if x != name@ && before.contains(x) {
                        let j = before.index_of(x);
                        assert(j != i);
                        if j < i {
                            assert(after[j] == x);
                        } else {
                            assert(after[j - 1] == x);
                        }
                    }
                }
                assert(self@ =~= old(self)@.remove(name@));
                return;
            }
            i += 1;
        }
        assert(!self@.contains(name@)) by {
            if self@.contains(name@) {
                let j = self.held().index_of(name@);
                assert(self.held()[j] == name@);
            }
        }
        assert(self@ =~= old(self)@.remove(name@));
    }

    /// Claims `name` and, on success, appends it to `string`, which the
    /// caller passes in empty and reads back as the session's name.
    pub fn check_username(&mut self, string: &mut String, name: &str)
        requires
            old(self).wf(),
        ensures
            final(self).wf(),
            final(self)@ == claim_outcome(old(self)@, name@).1,
            final(string)@ == if claim_outcome(old(self)@, name@).0 {
                old(string)@ + name@
            } else {
                old(string)@
            },
    {
        if self.claim(name) {
            string.append(name);
        }
    }
}

/// A name that one claim has just taken is refused to every other claim
/// until it is released, and can be claimed again once it is.
pub proof fn lemma_name_held_once(held: Set<Seq<char>>, name: Seq<char>)
    ensures
        claim_outcome(held, name).0 ==> claim_outcome(held, name).1.contains(name),
        !claim_outcome(claim_outcome(held, name).1, name).0,
        claim_outcome(claim_outcome(held, name).1.remove(name), name).0,
{
}

} // verus!
