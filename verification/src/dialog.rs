use vstd::prelude::*;
use vstd::string::*;

use crate::text::{chars_eq, chars_lt, chars_of, lemma_seq_lt_irreflexive, lemma_seq_lt_total, lemma_seq_lt_transitive, seq_lt};

verus! {

/// The character sequences of a list of strings.
pub open spec fn string_views(v: Seq<String>) -> Seq<Seq<char>> {
    v.map_values(|s: String| s@)
}

/// Strictly increasing in [`seq_lt`] order, hence free of duplicates.
pub open spec fn strictly_sorted(v: Seq<Seq<char>>) -> bool {
    forall|i: int, j: int| 0 <= i < j < v.len() ==> seq_lt(#[trigger] v[i], #[trigger] v[j])
}

/// Lightweight flag store that tracks which named events have occurred.
///
/// This struct is the authoritative copy of story flags used by core game systems
/// (zone NPC spawning, ending resolution, save/load). The flags are kept sorted.
#[derive(Debug)]
pub struct DialogFlags {
    flags: Vec<String>,
}

impl View for DialogFlags {
    type V = Set<Seq<char>>;

    closed spec fn view(&self) -> Set<Seq<char>> {
        string_views(self.flags@).to_set()
    }
}

impl DialogFlags {
    #[verifier::type_invariant]
    closed spec fn sorted(&self) -> bool {
        strictly_sorted(string_views(self.flags@))
    }

    /// The stored flags in ascending order.
    pub closed spec fn sorted_flags(&self) -> Seq<Seq<char>> {
        string_views(self.flags@)
    }

    /// An empty store.
    pub fn new() -> (f: Self)
        ensures
            f@ == Set::<Seq<char>>::empty(),
    {
        let f = DialogFlags { flags: Vec::new() };
        proof {
            assert(string_views(f.flags@) =~= Seq::<Seq<char>>::empty());
            assert(f@ =~= Set::<Seq<char>>::empty());
        }
        f
    }

    /// Position of the first stored flag not below `key`, and whether it equals `key`.
    fn locate(&self, key: &Vec<char>) -> (r: (usize, bool))
        ensures
            r.0 <= self.sorted_flags().len(),
            forall|i: int| 0 <= i < r.0 ==> seq_lt(#[trigger] self.sorted_flags()[i], key@),
            r.1 ==> r.0 < self.sorted_flags().len() && self.sorted_flags()[r.0 as int] == key@,
            !r.1 ==> forall|i: int| r.0 <= i < self.sorted_flags().len() ==> seq_lt(key@, #[trigger] self.sorted_flags()[i]),
    {
        proof {
            use_type_invariant(self);
        }
        let ghost fl = self.sorted_flags();
        let mut i: usize = 0;
        while i < self.flags.len()
            invariant
                fl == self.sorted_flags(),
                strictly_sorted(fl),
                fl.len() == self.flags@.len(),
                i <= fl.len(),
                forall|j: int| 0 <= j < i ==> seq_lt(#[trigger] fl[j], key@),
            decreases fl.len() - i,
        {
            let cur = chars_of(self.flags[i].as_str());
            proof {
                assert(cur@ == fl[i as int]);
            }
            if chars_eq(&cur, key) {
                return (i, true);
            }
            if chars_lt(key, &cur) {
                proof {
                    assert forall|j: int| i <= j < fl.len() implies seq_lt(key@, #[trigger] fl[j]) by {
                        if j > i {
                            assert(seq_lt(fl[i as int], fl[j]));
                            lemma_seq_lt_transitive(key@, fl[i as int], fl[j]);
                        }
                    }
                }
                return (i, false);
            }
            proof {
                lemma_seq_lt_total(cur@, key@);
            }
            i = i + 1;
        }
        (i, false)
    }

    /// Raise a named flag.
    pub fn set_flag(&mut self, flag: &str)
        ensures
            final(self)@ == old(self)@.insert(flag@),
    {
        proof {
            use_type_invariant(&*self);
        }
        let key = chars_of(flag);
        let (pos, found) = self.locate(&key);
        if !found {
            let ghost old_fl = self.sorted_flags();
            let s = String::from_str(flag);
            let mut flags: Vec<String> = Vec::new();
            std::mem::swap(&mut flags, &mut self.flags);
            proof {
                assert(string_views(flags@) == old_fl);
            }
            flags.insert(pos, s);
            proof {
                let nf = string_views(flags@);
                assert(nf =~= old_fl.insert(pos as int, flag@));
                assert forall|i: int, j: int| 0 <= i < j < nf.len() implies seq_lt(#[trigger] nf[i], #[trigger] nf[j]) by {
                    if j < pos {
                        assert(nf[i] == old_fl[i] && nf[j] == old_fl[j]);
                    } else if j == pos {
                        assert(nf[i] == old_fl[i]);
                    } else if i < pos {
                        assert(nf[i] == old_fl[i] && nf[j] == old_fl[j - 1]);
                        lemma_seq_lt_transitive(old_fl[i], flag@, old_fl[j - 1]);
                    } else if i == pos {
                        assert(nf[j] == old_fl[j - 1]);
                    } else {
                        assert(nf[i] == old_fl[i - 1] && nf[j] == old_fl[j - 1]);
                    }
                }
                assert(nf.to_set() =~= old_fl.to_set().insert(flag@)) by {
                    assert forall|x: Seq<char>| nf.to_set().contains(x) <==> old_fl.to_set().insert(flag@).contains(x) by {
                        if nf.to_set().contains(x) {
                            let k = choose|k: int| 0 <= k < nf.len() && nf[k] == x;
                            if k < pos {
                                assert(old_fl[k] == x);
                            } else if k > pos {
                                assert(old_fl[k - 1] == x);
                            }
                        }
                        if old_fl.to_set().contains(x) {
                            let k = choose|k: int| 0 <= k < old_fl.len() && old_fl[k] == x;
                            if k < pos {
                                assert(nf[k] == x);
                            } else {
                                assert(nf[k + 1] == x);
                            }
                        }
                        if x == flag@ {
                            assert(nf[pos as int] == x);
                        }
                    }
                }
            }
            self.flags = flags;
        } else {
            proof {
                let fl = self.sorted_flags();
                assert(fl[pos as int] == flag@);
                assert(self@.contains(flag@));
                assert(self@.insert(flag@) =~= self@);
            }
        }
    }

    /// Lower a named flag; returns whether it was raised.
    pub fn clear_flag(&mut self, flag: &str) -> (was_set: bool)
        ensures
            was_set == old(self)@.contains(flag@),
            final(self)@ == old(self)@.remove(flag@),
    {
        proof {
            use_type_invariant(&*self);
        }
        let key = chars_of(flag);
        let (pos, found) = self.locate(&key);
        let ghost old_fl = self.sorted_flags();
        if !found {
            proof {
                assert(!old_fl.contains(flag@)) by {
                    if old_fl.contains(flag@) {
                        let k = choose|k: int| 0 <= k < old_fl.len() && old_fl[k] == flag@;
                        if k < pos {
                            lemma_seq_lt_irreflexive(flag@);
                        } else {
                            lemma_seq_lt_irreflexive(flag@);
                        }
                    }
                }
                assert(self@.remove(flag@) =~= self@);
            }
            return false;
        }
        let mut flags: Vec<String> = Vec::new();
        std::mem::swap(&mut flags, &mut self.flags);
        proof {
            assert(string_views(flags@) == old_fl);
        }
        flags.remove(pos);
        proof {
            let nf = string_views(flags@);
            assert(nf =~= old_fl.remove(pos as int));
            assert forall|i: int, j: int| 0 <= i < j < nf.len() implies seq_lt(#[trigger] nf[i], #[trigger] nf[j]) by {
                if j < pos {
                    assert(nf[i] == old_fl[i] && nf[j] == old_fl[j]);
                } else if i < pos {
                    assert(nf[i] == old_fl[i] && nf[j] == old_fl[j + 1]);
                } else {
                    assert(nf[i] == old_fl[i + 1] && nf[j] == old_fl[j + 1]);
                }
            }
            assert(nf.to_set() =~= old_fl.to_set().remove(flag@)) by {
                assert forall|x: Seq<char>| nf.to_set().contains(x) <==> old_fl.to_set().remove(flag@).contains(x) by {
                    if nf.to_set().contains(x) {
                        let k = choose|k: int| 0 <= k < nf.len() && nf[k] == x;
                        if k < pos {
                            assert(old_fl[k] == x);
                            assert(seq_lt(old_fl[k], old_fl[pos as int]));
                            lemma_seq_lt_irreflexive(x);
                        } else {
                            assert(old_fl[k + 1] == x);
                            assert(seq_lt(old_fl[pos as int], old_fl[k + 1]));
                            lemma_seq_lt_irreflexive(x);
                        }
                    }
                    if old_fl.to_set().remove(flag@).contains(x) {
                        let k = choose|k: int| 0 <= k < old_fl.len() && old_fl[k] == x;
                        if k < pos {
                            assert(nf[k] == x);
                        } else if k > pos {
                            assert(nf[k - 1] == x);
                        }
                    }
                }
            }
        }
        self.flags = flags;
        proof {
            assert(old_fl.contains(flag@)) by {
                assert(old_fl[pos as int] == flag@);
            }
        }
        true
    }

    /// Returns `true` when the named flag has been raised.
    pub fn is_flag_set(&self, flag: &str) -> (b: bool)
        ensures
            b == self@.contains(flag@),
    {
        proof {
            use_type_invariant(self);
        }
        let key = chars_of(flag);
        let (pos, found) = self.locate(&key);
        proof {
            let fl = self.sorted_flags();
            if !found && fl.to_set().contains(flag@) {
                let k = choose|k: int| 0 <= k < fl.len() && fl[k] == flag@;
                if k < pos {
                    assert(seq_lt(fl[k], key@));
                } else {
                    assert(seq_lt(key@, fl[k]));
                }
                lemma_seq_lt_irreflexive(flag@);
            }
            if found {
                assert(fl[pos as int] == flag@);
            }
        }
        found
    }

    /// Read-only view of all current flags, in ascending order.
    pub fn flags(&self) -> (v: &Vec<String>)
        ensures
            string_views(v@) == self.sorted_flags(),
            strictly_sorted(string_views(v@)),
            string_views(v@).to_set() == self@,
    {
        proof {
            use_type_invariant(self);
        }
        &self.flags
    }

    /// Return all currently-set flags as a sorted `Vec<String>` for serialization.
    pub fn export_flags(&self) -> (v: Vec<String>)
        ensures
            string_views(v@) == self.sorted_flags(),
            strictly_sorted(string_views(v@)),
            string_views(v@).to_set() == self@,
    {
        proof {
            use_type_invariant(self);
        }
        let mut v: Vec<String> = Vec::new();
        let mut i: usize = 0;
        while i < self.flags.len()
            invariant
                i <= self.flags@.len(),
                string_views(v@) == string_views(self.flags@).subrange(0, i as int),
            decreases self.flags@.len() - i,
        {
            let c = self.flags[i].clone();
            proof {
                assert(c@ == self.flags@[i as int]@);
            }
            let ghost old_v = v@;
            proof {
                assert(string_views(old_v).len() == old_v.len());
                assert(old_v.len() == i);
            }
            v.push(c);
            i = i + 1;
            proof {
                assert forall|k: int| 0 <= k < i implies #[trigger] string_views(v@)[k] == string_views(self.flags@)[k] by {
                    if k < i - 1 {
                        assert(v@[k] == old_v[k]);
                        assert(string_views(old_v)[k] == string_views(self.flags@).subrange(0, i - 1)[k]);
                    }
                }
                assert(string_views(v@) =~= string_views(self.flags@).subrange(0, i as int));
            }
        }
        proof {
            assert(string_views(v@) =~= string_views(self.flags@));
        }
        v
    }

    /// Merge a previously-exported flag list back into the store.
    pub fn import_flags(&mut self, flags: Vec<String>)
        ensures
            final(self)@ == old(self)@.union(string_views(flags@).to_set()),
    {
        let mut i: usize = 0;
        while i < flags.len()
            invariant
                i <= flags@.len(),
                self@ == old(self)@.union(string_views(flags@).subrange(0, i as int).to_set()),
            decreases flags@.len() - i,
        {
            self.set_flag(flags[i].as_str());
            i = i + 1;
            proof {
                let sv = string_views(flags@);
                assert(sv.subrange(0, i as int).to_set() =~= sv.subrange(0, i - 1).to_set().insert(sv[i - 1])) by {
                    assert forall|x: Seq<char>| sv.subrange(0, i as int).to_set().contains(x) <==> sv.subrange(0, i - 1).to_set().insert(sv[i - 1]).contains(x) by {
                        if sv.subrange(0, i as int).to_set().contains(x) {
                            let k = choose|k: int| 0 <= k < i && #[trigger] sv.subrange(0, i as int)[k] == x;
                            if k < i - 1 {
                                assert(sv.subrange(0, i - 1)[k] == x);
                            }
                        }
                        if sv.subrange(0, i - 1).to_set().contains(x) {
                            let k = choose|k: int| 0 <= k < i - 1 && #[trigger] sv.subrange(0, i - 1)[k] == x;
                            assert(sv.subrange(0, i as int)[k] == x);
                        }
                        if x == sv[i - 1] {
                            assert(sv.subrange(0, i as int)[i - 1] == x);
                        }
                    }
                }
                assert(self@ =~= old(self)@.union(sv.subrange(0, i as int).to_set()));
            }
        }
        proof {
            assert(string_views(flags@).subrange(0, flags@.len() as int) =~= string_views(flags@));
        }
    }
}

/// Importing a store's exported flags into an empty store reproduces the same flags:
/// `import_flags(export_flags())` on `DialogFlags::new()` gives back the stored set.
pub proof fn lemma_export_import_round_trip(
    stored: Set<Seq<char>>,
    exported: Seq<String>,
    restored: Set<Seq<char>>,
)
    requires
        string_views(exported).to_set() == stored,
        restored == Set::<Seq<char>>::empty().union(string_views(exported).to_set()),
    ensures
        restored == stored,
{
    assert(restored =~= stored);
}

} // verus!
