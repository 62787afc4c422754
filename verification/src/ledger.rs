//! The installed-package ledger: the set of logical package names this tool
//! has installed. Names are unique; order carries no meaning. Reading and
//! writing the persisted file is the caller's concern — the ledger itself is
//! a plain in-memory set with exact set semantics.

use vstd::prelude::*;
use vstd::string::*;

use crate::strutil::str_eq;

verus! {

/// The set of logical package names recorded as installed.
pub struct PackageDb {
    packages: Vec<String>,
}

impl View for PackageDb {
    type V = Set<Seq<char>>;

    /// The ledger viewed as the set of recorded names.
    closed spec fn view(&self) -> Set<Seq<char>> {
        Set::new(|s: Seq<char>| self.packages.deep_view().contains(s))
    }
}

impl PackageDb {
    /// No name is recorded twice.
    pub closed spec fn wf(&self) -> bool {
        forall|i: int, j: int|
            0 <= i < j < self.packages@.len() ==> self.packages@[i]@ != self.packages@[j]@
    }

    /// The recorded names in storage order.
    pub closed spec fn names_seq(&self) -> Seq<Seq<char>> {
        self.packages.deep_view()
    }

    /// The set view holds exactly the names of the storage order.
    pub proof fn lemma_view_names_seq(&self)
        ensures
            forall|s: Seq<char>| self@.contains(s) == self.names_seq().contains(s),
    {
    }

    /// An empty ledger.
    pub fn new() -> (r: PackageDb)
        ensures
            r.wf(),
            r@ == Set::<Seq<char>>::empty(),
            r.names_seq() == Seq::<Seq<char>>::empty(),
    {
        let r = PackageDb { packages: Vec::new() };
        proof {
            assert(r.names_seq() =~= Seq::<Seq<char>>::empty());
            assert(r@ =~= Set::<Seq<char>>::empty());
        }
        r
    }

    /// Builds a ledger from whatever list of names was read back from
    /// storage, keeping each distinct name once.
    pub fn from_names(names: &Vec<String>) -> (r: PackageDb)
        ensures
            r.wf(),
            forall|s: Seq<char>| r@.contains(s) == names.deep_view().contains(s),
    {
        let mut r = PackageDb::new();
        let n = names.len();
        let mut i: usize = 0;
        while i < n
            invariant
                n == names@.len(),
                i <= n,
                r.wf(),
                forall|s: Seq<char>|
                    r@.contains(s) == names.deep_view().subrange(0, i as int).contains(s),
            decreases n - i,
        {
            let ghost prev = r@;
            r.add(names[i].as_str());
            i = i + 1;
            proof {
                let dv = names.deep_view();
                let c1 = dv.subrange(0, i as int);
                assert(c1.drop_last() =~= dv.subrange(0, i - 1));
                assert(c1.last() == dv[i - 1]);
                assert(dv[i - 1] == names@[i - 1]@);
                assert forall|s: Seq<char>| r@.contains(s) == c1.contains(s) by {
                    if c1.contains(s) {
                        let k = choose|k: int| 0 <= k < c1.len() && c1[k] == s;
                        if k < i - 1 {
                            assert(dv.subrange(0, i - 1).contains(s)) by {
                                assert(dv.subrange(0, i - 1)[k] == s);
                            }
                        }
                    }
                    if r@.contains(s) {
                        if s == names@[i - 1]@ {
                            assert(c1[i - 1] == s);
                        } else {
                            assert(prev.contains(s));
                            let sub = dv.subrange(0, i - 1);
                            let k = choose|k: int| 0 <= k < sub.len() && sub[k] == s;
                            assert(c1[k] == s);
                        }
                    }
                }
            }
        }
        proof {
            assert(names.deep_view().subrange(0, n as int) =~= names.deep_view());
        }
        r
    }

    /// Whether the ledger records this name.
    pub fn contains(&self, pkg: &str) -> (r: bool)
        ensures
            r == self@.contains(pkg@),
    {
        let n = self.packages.len();
        let mut i: usize = 0;
        while i < n
            invariant
                n == self.packages@.len(),
                i <= n,
                forall|j: int| 0 <= j < i ==> self.packages@[j]@ != pkg@,
            decreases n - i,
        {
            if str_eq(self.packages[i].as_str(), pkg) {
                proof {
                    assert(self.packages.deep_view()[i as int] == pkg@);
                }
                return true;
            }
            i = i + 1;
        }
        proof {
            if self.packages.deep_view().contains(pkg@) {
                let k = choose|k: int|
                    0 <= k < self.packages.deep_view().len() && self.packages.deep_view()[k]
                        == pkg@;
                assert(self.packages@[k]@ == pkg@);
                assert(false);
            }
        }
        false
    }

    /// Records a name. Recording a name that is already present leaves the
    /// set unchanged.
    pub fn add(&mut self, pkg: &str)
        requires
            old(self).wf(),
        ensures
            final(self).wf(),
            final(self)@ == old(self)@.insert(pkg@),
            final(self)@.contains(pkg@),
    {
        let present = self.contains(pkg);
        if !present {
            let ghost prev = self.packages.deep_view();
            self.packages.push(pkg.to_owned());
            proof {
                assert(self.packages.deep_view() =~= prev.push(pkg@));
                let dv = self.packages.deep_view();
                assert forall|s: Seq<char>| self@.contains(s) == old(self)@.insert(pkg@).contains(
                    s,
                ) by {
                    if dv.contains(s) {
                        let k = choose|k: int| 0 <= k < dv.len() && dv[k] == s;
                        if k < prev.len() {
                            assert(prev[k] == s);
                        }
                    }
                    if s == pkg@ {
                        assert(dv[dv.len() - 1] == s);
                    }
                    if prev.contains(s) {
                        let k = choose|k: int| 0 <= k < prev.len() && prev[k] == s;
                        assert(dv[k] == s);
                    }
                }
                assert forall|a: int, b: int|
                    0 <= a < b < self.packages@.len() implies self.packages@[a]@
                    != self.packages@[b]@ by {
                    assert(dv[a] == self.packages@[a]@);
                    assert(dv[b] == self.packages@[b]@);
                    if b < prev.len() {
                        assert(old(self).packages@[a]@ != old(self).packages@[b]@);
                    } else {
                        assert(dv[b] == pkg@);
                        assert(dv[a] == prev[a]);
                        if dv[a] == pkg@ {
                            assert(prev.contains(pkg@));
                            assert(old(self)@.contains(pkg@));
                            assert(false);
                        }
                    }
                }
            }
        } else {
            proof {
                assert(self@ =~= old(self)@.insert(pkg@));
            }
        }
    }

    /// The position of a name in storage order, when it is recorded.
    fn find_index(&self, pkg: &str) -> (r: Option<usize>)
        ensures
            match r {
                Some(i) => i < self.packages@.len() && self.packages@[i as int]@ == pkg@,
                None => forall|j: int|
                    0 <= j < self.packages@.len() ==> self.packages@[j]@ != pkg@,
            },
    {
        let n = self.packages.len();
        let mut i: usize = 0;
        while i < n
            invariant
                n == self.packages@.len(),
                i <= n,
                forall|j: int| 0 <= j < i ==> self.packages@[j]@ != pkg@,
            decreases n - i,
        {
            if str_eq(self.packages[i].as_str(), pkg) {
                return Some(i);
            }
            i = i + 1;
        }
        None
    }

    /// Removes a name. Removing an absent name leaves the set unchanged.
    pub fn remove(&mut self, pkg: &str)
        requires
            old(self).wf(),
        ensures
            final(self).wf(),
            final(self)@ == old(self)@.remove(pkg@),
            !final(self)@.contains(pkg@),
    {
        let ghost prev = self.packages.deep_view();
        match self.find_index(pkg) {
            None => {
                proof {
                    if prev.contains(pkg@) {
                        let k = choose|k: int| 0 <= k < prev.len() && prev[k] == pkg@;
                        assert(self.packages@[k]@ == pkg@);
                        assert(false);
                    }
                    assert(self@ =~= old(self)@.remove(pkg@));
                }
            },
            Some(i) => {
                let ghost pkgs0 = self.packages@;
                proof {
                    assert(prev[i as int] == pkgs0[i as int]@);
                }
                self.packages.remove(i);
                proof {
                    let dv = self.packages.deep_view();
                    assert(self.packages@ == pkgs0.remove(i as int));
                    assert forall|k: int| 0 <= k < dv.len() implies dv[k] == prev.remove(
                        i as int,
                    )[k] by {
                        assert(dv[k] == self.packages@[k]@);
                        if k < i {
                            assert(self.packages@[k] == pkgs0[k]);
                        } else {
                            assert(self.packages@[k] == pkgs0[k + 1]);
                        }
                    }
                    assert(dv =~= prev.remove(i as int));
                    assert forall|s: Seq<char>| self@.contains(s) == old(self)@.remove(
                        pkg@,
                    ).contains(s) by {
                        if dv.contains(s) {
                            let k = choose|k: int| 0 <= k < dv.len() && dv[k] == s;
                            if k < i {
                                assert(prev[k] == s);
                            } else {
                                assert(prev[k + 1] == s);
                            }
                            assert(s != pkg@) by {
                                if k < i {
                                    assert(pkgs0[k]@ == s);
                                    if s == pkg@ {
                                        assert(pkgs0[k]@ == pkgs0[i as int]@);
                                        assert(false);
                                    }
                                } else {
                                    assert(pkgs0[k + 1]@ == s);
                                    if s == pkg@ {
                                        assert(pkgs0[k + 1]@ == pkgs0[i as int]@);
                                        assert(false);
                                    }
                                }
                            }
                        }
                        if prev.contains(s) && s != pkg@ {
                            let k = choose|k: int| 0 <= k < prev.len() && prev[k] == s;
                            if k < i {
                                assert(dv[k] == s);
                            } else {
                                assert(k != i);
                                assert(dv[k - 1] == s);
                            }
                        }
                    }
                    assert forall|a: int, b: int|
                        0 <= a < b < self.packages@.len() implies self.packages@[a]@
                        != self.packages@[b]@ by {
                        let a0: int = if a < i { a } else { a + 1 };
                        let b0: int = if b < i { b } else { b + 1 };
                        assert(self.packages@[a] == pkgs0[a0]);
                        assert(self.packages@[b] == pkgs0[b0]);
                        assert(pkgs0[a0]@ != pkgs0[b0]@);
                    }
                    assert(self@ =~= old(self)@.remove(pkg@));
                }
            },
        }
    }

    /// The recorded names, for the caller to persist or iterate.
    pub fn names(&self) -> (r: &Vec<String>)
        ensures
            r.deep_view() == self.names_seq(),
    {
        &self.packages
    }
}

/// The names that an upgrade request covers: every recorded name when no name
/// is given; the given name alone when the ledger records it; nothing when it
/// does not.
pub fn upgrade_targets(db: &PackageDb, pkg: &str) -> (r: Vec<String>)
    ensures
        pkg@.len() == 0 ==> r.deep_view() == db.names_seq(),
        pkg@.len() == 0 ==> forall|s: Seq<char>| db@.contains(s) == r.deep_view().contains(s),
        pkg@.len() > 0 && db@.contains(pkg@) ==> r.deep_view() == seq![pkg@],
        pkg@.len() > 0 && !db@.contains(pkg@) ==> r.deep_view() == Seq::<Seq<char>>::empty(),
{
    if pkg.unicode_len() == 0 {
        let names = db.names();
        let n = names.len();
        let mut out: Vec<String> = Vec::new();
        let mut i: usize = 0;
        while i < n
            invariant
                n == names@.len(),
                names.deep_view() == db.names_seq(),
                i <= n,
                out.deep_view() == db.names_seq().subrange(0, i as int),
            decreases n - i,
        {
            let ghost prev = out.deep_view();
            out.push(names[i].clone());
            i = i + 1;
            proof {
                assert(out.deep_view() =~= prev.push(names.deep_view()[i - 1]));
                assert(out.deep_view() =~= db.names_seq().subrange(0, i as int));
            }
        }
        proof {
            assert(db.names_seq().subrange(0, n as int) =~= db.names_seq());
            db.lemma_view_names_seq();
        }
        out
    } else if db.contains(pkg) {
        let mut out: Vec<String> = Vec::new();
        out.push(pkg.to_owned());
        proof {
            assert(out.deep_view() =~= seq![pkg@]);
        }
        out
    } else {
        let out: Vec<String> = Vec::new();
        proof {
            assert(out.deep_view() =~= Seq::<Seq<char>>::empty());
        }
        out
    }
}

} // verus!
