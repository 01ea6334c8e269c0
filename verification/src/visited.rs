use vstd::prelude::*;

verus! {

/// The visited set of a real scan: the canonical absolute paths already
/// processed in this run. A path, once inserted, stays for the life of the
/// run, so no canonical node is ever processed twice however many names or
/// links lead to it.
pub struct VisitedSet {
    keys: Vec<String>,
}

impl VisitedSet {
    /// The set of paths held.
    pub closed spec fn view(&self) -> Set<Seq<char>> {
        Set::new(
            |s: Seq<char>|
                exists|i: int| 0 <= i < self.keys@.len() && (#[trigger] self.keys@[i])@ == s,
        )
    }

    /// No path is held twice.
    pub closed spec fn wf(&self) -> bool {
        forall|i: int, j: int|
            0 <= i < j < self.keys@.len() ==> (#[trigger] self.keys@[i])@ != (
            #[trigger] self.keys@[j])@
    }

    /// How many paths are held.
    pub closed spec fn count(&self) -> nat {
        self.keys@.len()
    }

    /// How many paths are held.
    pub fn len(&self) -> (n: usize)
        ensures
            n == self.count(),
    {
        self.keys.len()
    }

    /// An empty set.
    pub fn new() -> (s: VisitedSet)
        ensures
            s@ == Set::<Seq<char>>::empty(),
            s.wf(),
            s.count() == 0,
    {
        let s = VisitedSet { keys: Vec::new() };
        proof {
            assert(s@ =~= Set::<Seq<char>>::empty());
        }
        s
    }

    /// Whether `key` was already inserted.
    pub fn contains(&self, key: &String) -> (r: bool)
        ensures
            r == self@.contains(key@),
    {
        let n = self.keys.len();
        let mut i: usize = 0;
        while i < n
            invariant
                n == self.keys@.len(),
                i <= n,
                forall|j: int| 0 <= j < i ==> (#[trigger] self.keys@[j])@ != key@,
            decreases n - i,
        {
            if self.keys[i].eq(key) {
                return true;
            }
            i += 1;
        }
        proof {
            assert(!self@.contains(key@));
        }
        false
    }

    /// Inserts `key`; a path already held is left alone.
    pub fn insert(&mut self, key: String)
        requires
            old(self).wf(),
        ensures
            final(self).wf(),
            final(self)@ == old(self)@.insert(key@),
            final(self).count() == old(self).count() + (if old(self)@.contains(key@) {
                0int
            } else {
                1int
            }),
    {
        let ghost kv = key@;
        if !self.contains(&key) {
            self.keys.push(key);
            proof {
                let ks = self.keys@;
                let n = ks.len() as int;
                assert forall|i: int, j: int| 0 <= i < j < n implies (#[trigger] ks[i])@ != (
                #[trigger] ks[j])@ by {
                    if j < n - 1 {
                        assert(old(self).wf());
                        assert(old(self).keys@[i]@ != old(self).keys@[j]@);
                    } else {
                        assert(!old(self)@.contains(kv));
                        assert(old(self).keys@[i]@ != kv);
                    }
                }
                assert forall|s: Seq<char>| self@.contains(s) implies old(self)@.insert(
                    kv,
                ).contains(s) by {
                    let i = choose|i: int| 0 <= i < n && (#[trigger] ks[i])@ == s;
                    if i < n - 1 {
                        assert(old(self).keys@[i]@ == s);
                    }
                }
                assert forall|s: Seq<char>| old(self)@.insert(kv).contains(s) implies self@.contains(
                    s,
                ) by {
                    if s == kv {
                        assert(ks[n - 1]@ == s);
                    } else {
                        let i = choose|i: int|
                            0 <= i < old(self).keys@.len() && (#[trigger] old(self).keys@[i])@ == s;
                        assert(ks[i]@ == s);
                    }
                }
                assert(self@ =~= old(self)@.insert(kv));
            }
        } else {
            proof {
                assert(self@ =~= old(self)@.insert(kv));
            }
        }
    }
}

} // verus!
