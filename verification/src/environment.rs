//! The environment handed to the chosen binary: a name-to-value mapping
//! built from raw variable pairs, where the last writer of a name wins,
//! and the `PATH` augmentation that appends the variant's own directories.

use vstd::prelude::*;

verus! {

/// The mapping that a pair sequence denotes: pairs apply in order, so
/// the last value written under a key is the one that stays.
pub open spec fn map_of_pairs<K, V>(ps: Seq<(K, V)>) -> Map<K, V>
    decreases ps.len(),
{
    if ps.len() == 0 {
        Map::empty()
    } else {
        map_of_pairs(ps.drop_last()).insert(ps.last().0, ps.last().1)
    }
}

/// A key is in the mapping exactly when some pair carries it.
pub proof fn lemma_map_of_pairs_contains<K, V>(ps: Seq<(K, V)>, key: K)
    ensures
        map_of_pairs(ps).contains_key(key) <==> exists|t: int|
            0 <= t < ps.len() && (#[trigger] ps[t]).0 == key,
    decreases ps.len(),
{
    if ps.len() > 0 {
        lemma_map_of_pairs_contains(ps.drop_last(), key);
        if ps.last().0 == key {
            assert((ps[ps.len() - 1]).0 == key);
        } else {
            assert forall|t: int| 0 <= t < ps.len() && (#[trigger] ps[t]).0 == key implies 0 <= t
                < ps.len() - 1 && (ps.drop_last()[t]).0 == key by {}
        }
    }
}

/// The value under a key is the one of the last pair that carries the
/// key: every later pair writes some other key.
pub proof fn lemma_last_writer_wins<K, V>(ps: Seq<(K, V)>, t: int, key: K)
    requires
        0 <= t < ps.len(),
        ps[t].0 == key,
        forall|u: int| t < u < ps.len() ==> (#[trigger] ps[u]).0 != key,
    ensures
        map_of_pairs(ps).contains_key(key),
        map_of_pairs(ps)[key] == ps[t].1,
    decreases ps.len(),
{
    if t == ps.len() - 1 {
    } else {
        assert(ps.last().0 != key);
        lemma_last_writer_wins(ps.drop_last(), t, key);
    }
}

/// The mapping holds at most one key per pair: its domain is finite and
/// no larger than the pair list.
pub proof fn lemma_map_of_pairs_dom<K, V>(ps: Seq<(K, V)>)
    ensures
        map_of_pairs(ps).dom().finite(),
        map_of_pairs(ps).dom().len() <= ps.len(),
    decreases ps.len(),
{
    broadcast use vstd::set::axiom_set_insert_len;

    if ps.len() == 0 {
        assert(map_of_pairs(ps).dom() =~= Set::<K>::empty());
    } else {
        lemma_map_of_pairs_dom(ps.drop_last());
        let m0 = map_of_pairs(ps.drop_last());
        assert(map_of_pairs(ps).dom() =~= m0.dom().insert(ps.last().0));
    }
}

/// Overwriting the single pair that carries a key acts on the mapping as
/// an insert under that key.
proof fn lemma_map_of_pairs_update<K, V>(ps: Seq<(K, V)>, t: int, key: K, val: V)
    requires
        0 <= t < ps.len(),
        ps[t].0 == key,
        forall|u: int| 0 <= u < ps.len() && u != t ==> (#[trigger] ps[u]).0 != key,
    ensures
        map_of_pairs(ps.update(t, (key, val))) == map_of_pairs(ps).insert(key, val),
    decreases ps.len(),
{
    let qs = ps.update(t, (key, val));
    if t == ps.len() - 1 {
        assert(qs.drop_last() =~= ps.drop_last());
        assert(map_of_pairs(ps).insert(key, val) =~= map_of_pairs(ps.drop_last()).insert(
            key,
            val,
        ));
    } else {
        assert(ps.last().0 != key);
        assert(qs.drop_last() =~= ps.drop_last().update(t, (key, val)));
        lemma_map_of_pairs_update(ps.drop_last(), t, key, val);
        assert(qs.last() == ps.last());
        assert(map_of_pairs(ps.drop_last()).insert(key, val).insert(ps.last().0, ps.last().1)
            =~= map_of_pairs(ps.drop_last()).insert(ps.last().0, ps.last().1).insert(key, val));
    }
}

/// The environment for the chosen binary: unique names, each holding the
/// value its last writer gave it.
#[derive(Debug)]
pub struct EnvMap {
    entries: Vec<(String, String)>,
}

impl View for EnvMap {
    type V = Map<Seq<char>, Seq<char>>;

    closed spec fn view(&self) -> Map<Seq<char>, Seq<char>> {
        map_of_pairs(self.entries.deep_view())
    }
}

/// The `PATH` value after augmentation: whatever stood there (or nothing),
/// then the variant's `bin-<id>` and `libexec-<id>` directories under the
/// launcher's own directory, colon-separated and appended last, so that
/// they shadow nothing the binary puts first itself.
pub open spec fn augmented_path(existing: Option<Seq<char>>, base: Seq<char>, id: Seq<char>) -> Seq<
    char,
> {
    (match existing {
        Some(p) => p,
        None => Seq::<char>::empty(),
    }) + ":"@ + base + "/bin-"@ + id + ":"@ + base + "/libexec-"@ + id
}

impl EnvMap {
    /// Unique names: no two entries write the same one.
    pub closed spec fn wf(&self) -> bool {
        forall|p: int, q: int|
            0 <= p < q < self.entries.deep_view().len() ==> (#[trigger] self.entries.deep_view()[p]).0
                != (#[trigger] self.entries.deep_view()[q]).0
    }

    /// An empty environment.
    pub fn new() -> (r: EnvMap)
        ensures
            r.wf(),
            r@ == Map::<Seq<char>, Seq<char>>::empty(),
    {
        let r = EnvMap { entries: Vec::new() };
        proof {
            assert(r.entries.deep_view() =~= Seq::<(Seq<char>, Seq<char>)>::empty());
        }
        r
    }

    /// The entries as plain pairs, one per name.
    pub fn pairs(&self) -> (r: &Vec<(String, String)>)
        ensures
            map_of_pairs(r.deep_view()) == self@,
    {
        &self.entries
    }

    /// Writes a value under a name, replacing what stood there.
    pub fn insert(&mut self, key: String, value: String)
        requires
            old(self).wf(),
        ensures
            final(self).wf(),
            final(self)@ == old(self)@.insert(key@, value@),
    {
        let ghost dv = self.entries.deep_view();
        let n = self.entries.len();
        let mut t: usize = 0;
        while t < n
            invariant
                self.wf(),
                n == self.entries.len(),
                t <= n,
                forall|u: int| 0 <= u < t ==> (#[trigger] dv[u]).0 != key@,
                dv == self.entries.deep_view(),
                old(self)@ == map_of_pairs(dv),
            decreases n - t,
        {
            if crate::text::str_eq(self.entries[t].0.as_str(), key.as_str()) {
                proof {
                    assert(dv[t as int].0 == key@);
                    assert forall|u: int| 0 <= u < dv.len() && u != t implies (#[trigger] dv[u]).0
                        != key@ by {
                        if u < t {
                        } else {
                            assert(dv[t as int].0 != dv[u].0);
                        }
                    }
                    lemma_map_of_pairs_update(dv, t as int, key@, value@);
                }
                self.entries.set(t, (key, value));
                proof {
                    let dv2 = self.entries.deep_view();
                    assert(dv2 =~= dv.update(t as int, (key@, value@)));
                    assert forall|p: int, q: int| 0 <= p < q < dv2.len() implies (#[trigger] dv2[p]).0
                        != (#[trigger] dv2[q]).0 by {
                        assert(dv2[p].0 == dv[p].0);
                        assert(dv2[q].0 == dv[q].0);
                    }
                }
                return;
            }
            t += 1;
        }
        self.entries.push((key, value));
        proof {
            let dv2 = self.entries.deep_view();
            assert(dv2 =~= dv.push((key@, value@)));
            assert(dv2.drop_last() =~= dv);
            assert forall|p: int, q: int| 0 <= p < q < dv2.len() implies (#[trigger] dv2[p]).0
                != (#[trigger] dv2[q]).0 by {
                assert(dv2[p].0 == dv[p].0);
                if q == dv.len() {
                    assert(dv2[q].0 == key@);
                } else {
                    assert(dv2[q].0 == dv[q].0);
                }
            }
        }
    }

    /// Reads the value under a name, if one stands there.
    pub fn get(&self, key: &str) -> (r: Option<&String>)
        requires
            self.wf(),
        ensures
            r is Some <==> self@.contains_key(key@),
            r matches Some(v) ==> v@ == self@[key@],
    {
        let ghost dv = self.entries.deep_view();
        let n = self.entries.len();
        let mut t: usize = 0;
        while t < n
            invariant
                self.wf(),
                n == self.entries.len(),
                t <= n,
                forall|u: int| 0 <= u < t ==> (#[trigger] dv[u]).0 != key@,
                dv == self.entries.deep_view(),
            decreases n - t,
        {
            if crate::text::str_eq(self.entries[t].0.as_str(), key) {
                proof {
                    assert forall|u: int| t < u < dv.len() implies (#[trigger] dv[u]).0 != key@ by {
                        assert(dv[t as int].0 != dv[u].0);
                    }
                    lemma_last_writer_wins(dv, t as int, key@);
                }
                return Some(&self.entries[t].1);
            }
            t += 1;
        }
        proof {
            lemma_map_of_pairs_contains(dv, key@);
        }
        None
    }

    /// Folds raw pairs into an environment: applied in order, so for each
    /// name the pair written last is the one that counts.
    pub fn from_pairs(pairs: &Vec<(String, String)>) -> (r: EnvMap)
        ensures
            r.wf(),
            r@ == map_of_pairs(pairs.deep_view()),
    {
        let ghost dv = pairs.deep_view();
        let n = pairs.len();
        let mut r = EnvMap::new();
        let mut t: usize = 0;
        proof {
            assert(dv.take(0) =~= Seq::<(Seq<char>, Seq<char>)>::empty());
        }
        while t < n
            invariant
                r.wf(),
                n == pairs.len(),
                t <= n,
                dv == pairs.deep_view(),
                r@ == map_of_pairs(dv.take(t as int)),
            decreases n - t,
        {
            let key = pairs[t].0.clone();
            let value = pairs[t].1.clone();
            r.insert(key, value);
            proof {
                let w = dv.take(t as int + 1);
                assert(w.drop_last() =~= dv.take(t as int));
                assert(w.last() == dv[t as int]);
            }
            t += 1;
        }
        proof {
            assert(dv.take(n as int) =~= dv);
        }
        r
    }

    /// Appends the variant's two directories to `PATH`, starting from the
    /// value that stood there or from nothing.
    pub fn augment_path(&mut self, base_dir: &str, id: &str)
        requires
            old(self).wf(),
        ensures
            final(self).wf(),
            final(self)@ == old(self)@.insert(
                "PATH"@,
                augmented_path(
                    if old(self)@.contains_key("PATH"@) {
                        Some(old(self)@["PATH"@])
                    } else {
                        None
                    },
                    base_dir@,
                    id@,
                ),
            ),
    {
        let mut p: String = match self.get("PATH") {
            Some(v) => v.clone(),
            None => String::new(),
        };
        p.append(":");
        p.append(base_dir);
        p.append("/bin-");
        p.append(id);
        p.append(":");
        p.append(base_dir);
        p.append("/libexec-");
        p.append(id);
        let key = "PATH".to_owned();
        self.insert(key, p);
    }
}

} // verus!
