//! Resolution of the launcher's own location through symlinks, over a
//! modeled directory tree: each known path is either a symlink with a
//! target or a plain entry, and a lookup of an unknown path fails.
//! Resolution follows links until a plain entry, and fails — rather
//! than looping — on a failed lookup or a chain deeper than the table
//! could explain.

use vstd::prelude::*;

use crate::LaunchError;
use crate::environment::lemma_last_writer_wins;
use crate::environment::lemma_map_of_pairs_contains;
use crate::environment::map_of_pairs;
use crate::text::str_eq;

verus! {

/// What a metadata lookup showed of one path.
pub enum FsNode {
    /// A symbolic link and where it points.
    Symlink { target: String },
    /// Anything that is not a symlink.
    Plain,
}

/// The link a node follows to, if it is one.
pub open spec fn node_target(n: FsNode) -> Option<Seq<char>> {
    match n {
        FsNode::Symlink { target } => Some(target@),
        FsNode::Plain => None,
    }
}

/// The known paths and what each one is.
pub struct LinkTable {
    pub entries: Vec<(String, FsNode)>,
}

/// The entries as path/target pairs.
pub open spec fn link_pairs(es: Seq<(String, FsNode)>) -> Seq<(Seq<char>, Option<Seq<char>>)> {
    es.map_values(|e: (String, FsNode)| (e.0@, node_target(e.1)))
}

impl View for LinkTable {
    type V = Map<Seq<char>, Option<Seq<char>>>;

    open spec fn view(&self) -> Map<Seq<char>, Option<Seq<char>>> {
        map_of_pairs(link_pairs(self.entries@))
    }
}

/// Where a chain of lookups starting at `p` ends within `fuel` link
/// follows: the first non-symlink reached, or nothing when a lookup
/// fails or the links run deeper than that.
pub open spec fn chain_end(
    m: Map<Seq<char>, Option<Seq<char>>>,
    p: Seq<char>,
    fuel: nat,
) -> Option<Seq<char>>
    decreases fuel,
{
    if !m.contains_key(p) {
        None
    } else {
        match m[p] {
            None => Some(p),
            Some(q) => if fuel == 0 {
                None
            } else {
                chain_end(m, q, (fuel - 1) as nat)
            },
        }
    }
}

/// A chain that ends, ends on a non-symlink the table knows.
pub proof fn lemma_chain_end_plain(m: Map<Seq<char>, Option<Seq<char>>>, p: Seq<char>, fuel: nat)
    ensures
        chain_end(m, p, fuel) matches Some(q) ==> m.contains_key(q) && m[q] is None,
    decreases fuel,
{
    if m.contains_key(p) && m[p] is Some && fuel > 0 {
        lemma_chain_end_plain(m, m[p]->0, (fuel - 1) as nat);
    }
}

/// A finite symlink chain in the model: each member looks up to the
/// next, and the last is a non-symlink.
pub open spec fn is_link_chain(m: Map<Seq<char>, Option<Seq<char>>>, chain: Seq<Seq<char>>) -> bool {
    &&& chain.len() >= 1
    &&& (forall|i: int|
        0 <= i < chain.len() - 1 ==> m.contains_key(#[trigger] chain[i]) && m[chain[i]]
            == Some(chain[i + 1]))
    &&& m.contains_key(chain.last())
    &&& m[chain.last()] is None
}

/// Any finite chain resolves to its end: with fuel for its links, the
/// modeled walk from the chain's head terminates on its last member,
/// the non-symlink target.
pub proof fn lemma_chain_resolves(
    m: Map<Seq<char>, Option<Seq<char>>>,
    chain: Seq<Seq<char>>,
    fuel: nat,
)
    requires
        is_link_chain(m, chain),
        fuel + 1 >= chain.len(),
    ensures
        chain_end(m, chain[0], fuel) == Some(chain.last()),
    decreases chain.len(),
{
    if chain.len() > 1 {
        assert(m[chain[0]] == Some(chain[1]));
        let rest = chain.skip(1);
        assert(rest.last() == chain.last());
        assert forall|i: int|
            0 <= i < rest.len() - 1 implies m.contains_key(#[trigger] rest[i]) && m[rest[i]]
            == Some(rest[i + 1]) by {
            assert(rest[i] == chain[i + 1]);
            assert(rest[i + 1] == chain[i + 2]);
        }
        lemma_chain_resolves(m, rest, (fuel - 1) as nat);
    }
}

impl LinkTable {
    /// What the table says of a path: the latest entry wins, as the
    /// mapping does.
    pub fn lookup(&self, path: &str) -> (r: Option<&FsNode>)
        ensures
            r is Some <==> self@.contains_key(path@),
            r matches Some(n) ==> node_target(*n) == self@[path@],
    {
        let ghost lp = link_pairs(self.entries@);
        let n = self.entries.len();
        let mut t: usize = n;
        while t > 0
            invariant
                n == self.entries@.len(),
                t <= n,
                lp == link_pairs(self.entries@),
                forall|u: int| t <= u < n ==> (#[trigger] lp[u]).0 != path@,
            decreases t,
        {
            t -= 1;
            if str_eq(self.entries[t].0.as_str(), path) {
                proof {
                    assert(lp[t as int].0 == path@);
                    lemma_last_writer_wins(lp, t as int, path@);
                }
                return Some(&self.entries[t].1);
            }
        }
        proof {
            lemma_map_of_pairs_contains(lp, path@);
        }
        None
    }

    /// Follows symlinks from `start` to a plain entry. Succeeds exactly
    /// when the modeled chain ends, and then on its end; fails on a
    /// failed lookup or a chain deeper than the table has entries.
    pub fn resolve_links(&self, start: &str) -> (r: Result<String, LaunchError>)
        ensures
            r matches Ok(p) ==> chain_end(self@, start@, self.entries@.len() as nat) == Some(p@),
            r is Err <==> chain_end(self@, start@, self.entries@.len() as nat) is None,
            r matches Ok(p) ==> self@.contains_key(p@) && self@[p@] is None,
            r matches Err(e) ==> e matches LaunchError::PathResolution { .. },
    {
        let ghost m = self@;
        let fuel0 = self.entries.len();
        let mut fuel = fuel0;
        let mut current: String = start.to_owned();
        loop
            invariant
                m == self@,
                fuel0 == self.entries@.len(),
                fuel <= fuel0,
                chain_end(m, start@, fuel0 as nat) == chain_end(m, current@, fuel as nat),
            decreases fuel,
        {
            match self.lookup(current.as_str()) {
                None => {
                    let mut detail = "Broken link: '".to_owned();
                    detail.append(current.as_str());
                    detail.append("'");
                    return Err(LaunchError::PathResolution { detail });
                },
                Some(node) => match node {
                    FsNode::Plain => {
                        return Ok(current);
                    },
                    FsNode::Symlink { target } => {
                        if fuel == 0 {
                            let mut detail = "Too many levels of symbolic links: '".to_owned();
                            detail.append(current.as_str());
                            detail.append("'");
                            return Err(LaunchError::PathResolution { detail });
                        }
                        fuel -= 1;
                        let next = target.clone();
                        current = next;
                    },
                },
            }
        }
    }

    /// Every acyclic chain of this table resolves: its members are
    /// distinct keys of the mapping, of which the table holds at most
    /// one per entry, so the entry count — the fuel `resolve_links`
    /// walks with — covers all its links, and the walk from the chain's
    /// head ends on its non-symlink target.
    pub proof fn lemma_resolves_acyclic_chain(&self, chain: Seq<Seq<char>>)
        requires
            is_link_chain(self@, chain),
            chain.no_duplicates(),
        ensures
            chain_end(self@, chain[0], self.entries@.len() as nat) == Some(chain.last()),
    {
        assert forall|x: Seq<char>| chain.to_set().contains(x) implies self@.dom().contains(
            x,
        ) by {
            let i = choose|i: int| 0 <= i < chain.len() && chain[i] == x;
            assert(self@.contains_key(chain[i]));
        }
        assert(chain.to_set().subset_of(self@.dom()));
        chain.unique_seq_to_set();
        crate::environment::lemma_map_of_pairs_dom(link_pairs(self.entries@));
        vstd::set_lib::lemma_len_subset(chain.to_set(), self@.dom());
        lemma_chain_resolves(self@, chain, self.entries@.len() as nat);
    }
}

} // verus!
