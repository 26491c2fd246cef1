//! The registry of deployed namespaces: each name is deployed once, with
//! its owner, the hash of its schema, its visibility and replication.

use vstd::prelude::*;
use vstd::string::StringSliceAdditionalSpecFns;
use crate::hash::{hex_encode, hex_of, sha3_256, sha3_256_spec};
use crate::rpc::NamespaceEntry;
use crate::text::{lemma_seq_lt_order, seq_lt, str_eq, str_lt, string_of};

verus! {

/// Each name appears at most once.
pub open spec fn names_unique(e: Seq<NamespaceEntry>) -> bool {
    forall|i: int, j: int| 0 <= i < j < e.len() ==> (#[trigger] e[i]).name@ != (#[trigger] e[j]).name@
}

/// Whether a namespace called `name` is deployed.
pub open spec fn has_namespace(e: Seq<NamespaceEntry>, name: Seq<char>) -> bool {
    exists|k: int| 0 <= k < e.len() && (#[trigger] e[k]).name@ == name
}

/// `out` holds exactly the namespaces of `owner` in `e`, by name.
pub open spec fn owner_listing(out: Seq<NamespaceEntry>, e: Seq<NamespaceEntry>, owner: Seq<char>) -> bool {
    &&& forall|k: int| 0 <= k < out.len() ==> (#[trigger] out[k]).owner@ == owner && e.contains(out[k])
    &&& forall|i: int| 0 <= i < e.len() && (#[trigger] e[i]).owner@ == owner ==> out.contains(e[i])
    &&& forall|a: int, b: int| 0 <= a < b < out.len() ==> seq_lt((#[trigger] out[a]).name@, (#[trigger] out[b]).name@)
}

pub open spec fn msg_namespace_exists(name: Seq<char>) -> Seq<char> {
    "namespace '"@ + name + "' already exists"@
}

/// The deployed namespaces, in deployment order.
pub struct NamespaceRegistry {
    entries: Vec<NamespaceEntry>,
}

impl View for NamespaceRegistry {
    type V = Seq<NamespaceEntry>;

    closed spec fn view(&self) -> Seq<NamespaceEntry> {
        self.entries@
    }
}

impl NamespaceRegistry {
    /// No namespace deployed.
    pub fn new() -> (r: Self)
        ensures
            r@.len() == 0,
            names_unique(r@),
    {
        NamespaceRegistry { entries: Vec::new() }
    }

    /// The deployed namespaces, in deployment order.
    pub fn entries(&self) -> (r: &Vec<NamespaceEntry>)
        ensures
            r@ == self@,
    {
        &self.entries
    }

    fn contains(&self, name: &str) -> (r: bool)
        ensures
            r == has_namespace(self@, name@),
    {
        let mut i: usize = 0;
        while i < self.entries.len()
            invariant
                i <= self@.len(),
                forall|j: int| 0 <= j < i ==> (#[trigger] self@[j]).name@ != name@,
            decreases self@.len() - i,
        {
            if str_eq(self.entries[i].name.as_str(), name) {
                assert(0 <= i < self@.len() && self@[i as int].name@ == name@);
                return true;
            }
            i = i + 1;
        }
        false
    }

    /// Deploys a namespace for `owner`: refused when the name is taken;
    /// otherwise recorded with the hex SHA3-256 of its schema, its
    /// visibility ("private" unless given) and its replication (1 unless
    /// given). Gives the new entry.
    pub fn deploy(
        &mut self,
        name: &str,
        owner: &str,
        schema: &str,
        visibility: Option<&str>,
        replication: Option<u64>,
    ) -> (r: Result<NamespaceEntry, (i32, String)>)
        requires
            names_unique(old(self)@),
        ensures
            names_unique(final(self)@),
            has_namespace(old(self)@, name@) ==> (r matches Err((code, msg)) && code == -32602 && msg@
                == msg_namespace_exists(name@) && final(self)@ == old(self)@),
            !has_namespace(old(self)@, name@) ==> ({
                &&& r matches Ok(e)
                &&& e.name@ == name@
                &&& e.owner@ == owner@
                &&& e.schema_hash@ == hex_of(sha3_256_spec(schema.spec_bytes()))
                &&& e.visibility@ == match visibility {
                    Some(v) => v@,
                    None => "private"@,
                }
                &&& e.replication == match replication {
                    Some(n) => n,
                    None => 1,
                }
                &&& final(self)@.len() == old(self)@.len() + 1
                &&& final(self)@.drop_last() == old(self)@
                &&& final(self)@.last().name@ == e.name@
                &&& final(self)@.last().owner@ == e.owner@
                &&& final(self)@.last().schema_hash@ == e.schema_hash@
                &&& final(self)@.last().visibility@ == e.visibility@
                &&& final(self)@.last().replication == e.replication
            }),
    {
        if self.contains(name) {
            let mut msg = string_of("namespace '");
            msg.append(name);
            msg.append("' already exists");
            return Err((-32602, msg));
        }
        let digest = sha3_256(schema.as_bytes());
        let schema_hash = hex_encode(digest.0.as_slice());
        let vis = match visibility {
            Some(v) => v,
            None => "private",
        };
        let rep = match replication {
            Some(n) => n,
            None => 1,
        };
        let ghost old_e = self@;
        self.entries.push(
            NamespaceEntry {
                name: string_of(name),
                owner: string_of(owner),
                schema_hash: schema_hash.clone(),
                visibility: string_of(vis),
                replication: rep,
            },
        );
        proof {
            let n = self@;
            assert(n.drop_last() =~= old_e);
            assert forall|i: int, j: int| 0 <= i < j < n.len() implies (#[trigger] n[i]).name@ != (
            #[trigger] n[j]).name@ by {
                if j < old_e.len() {
                    assert(old_e[i].name@ != old_e[j].name@);
                } else {
                    assert(n[i] == old_e[i]);
                    if n[i].name@ == name@ {
                        assert(has_namespace(old_e, name@));
                    }
                }
            }
        }
        Ok(
            NamespaceEntry {
                name: string_of(name),
                owner: string_of(owner),
                schema_hash,
                visibility: string_of(vis),
                replication: rep,
            },
        )
    }

    /// The namespaces owned by `owner`, ordered by name.
    pub fn by_owner(&self, owner: &str) -> (out: Vec<&NamespaceEntry>)
        requires
            names_unique(self@),
        ensures
            owner_listing(out@.map_values(|r: &NamespaceEntry| *r), self@, owner@),
    {
        let ghost e = self@;
        let mut idx: Vec<usize> = Vec::new();
        let mut i: usize = 0;
        while i < self.entries.len()
            invariant
                e == self@,
                names_unique(e),
                i <= e.len(),
                forall|k: int| 0 <= k < idx@.len() ==> (#[trigger] idx@[k]) < i && e[idx@[k] as int].owner@ == owner@,
                forall|j: int|
                    0 <= j < i && (#[trigger] e[j]).owner@ == owner@ ==> exists|k: int|
                        0 <= k < idx@.len() && (#[trigger] idx@[k]) as int == j,
                forall|a: int, b: int|
                    0 <= a < b < idx@.len() ==> seq_lt(
                        (#[trigger] e[idx@[a] as int]).name@,
                        (#[trigger] e[idx@[b] as int]).name@,
                    ),
            decreases e.len() - i,
        {
            let d = &self.entries[i];
            if str_eq(d.owner.as_str(), owner) {
                let mut p: usize = 0;
                while p < idx.len() && !str_lt(d.name.as_str(), self.entries[idx[p]].name.as_str())
                    invariant
                        e == self@,
                        d == e[i as int],
                        i < e.len(),
                        p <= idx@.len(),
                        forall|k: int| 0 <= k < idx@.len() ==> (#[trigger] idx@[k]) < i,
                        forall|q: int| 0 <= q < p ==> !seq_lt(e[i as int].name@, (#[trigger] e[idx@[q] as int]).name@),
                    decreases idx@.len() - p,
                {
                    p = p + 1;
                }
                let ghost old_idx = idx@;
                idx.insert(p, i);
                proof {
                    let ni = idx@;
                    old_idx.insert_ensures(p as int, i);
                    assert forall|k: int| 0 <= k < ni.len() implies (#[trigger] ni[k]) < i + 1 && e[ni[k] as int].owner@
                        == owner@ by {
                        if k < p {
                            assert(ni[k] == old_idx[k]);
                        } else if k > p {
                            assert(ni[k] == old_idx[k - 1]);
                        }
                    }
                    assert forall|j: int| 0 <= j < i + 1 && (#[trigger] e[j]).owner@ == owner@ implies exists|k: int|
                        0 <= k < ni.len() && (#[trigger] ni[k]) as int == j by {
                        if j == i {
                            assert(ni[p as int] == i);
                        } else {
                            let k = choose|k: int| 0 <= k < old_idx.len() && (#[trigger] old_idx[k]) as int == j;
                            if k < p {
                                assert(ni[k] == old_idx[k]);
                            } else {
                                assert(ni[k + 1] == old_idx[k]);
                            }
                        }
                    }
                    assert forall|a: int, b: int| 0 <= a < b < ni.len() implies seq_lt(
                        (#[trigger] e[ni[a] as int]).name@,
                        (#[trigger] e[ni[b] as int]).name@,
                    ) by {
                        let x = e[i as int].name@;
                        if b == p {
                            let y = e[old_idx[a] as int].name@;
                            assert(ni[a] == old_idx[a]);
                            assert(!seq_lt(x, y));
                            assert(old_idx[a] != i);
                            assert(x != y) by {
                                if (old_idx[a] as int) < (i as int) {
                                    assert(e[old_idx[a] as int].name@ != e[i as int].name@);
                                }
                            }
                            lemma_seq_lt_order(y, x, x);
                        } else if a == p {
                            assert(ni[b] == old_idx[b - 1]);
                            let z = e[old_idx[b - 1] as int].name@;
                            if p < idx@.len() - 1 {
                                let w = e[old_idx[p as int] as int].name@;
                                assert(seq_lt(x, w));
                                if b - 1 > p {
                                    assert(seq_lt(w, z));
                                }
                                lemma_seq_lt_order(x, w, z);
                            }
                        } else {
                            let a0 = if a < p { a } else { a - 1 };
                            let b0 = if b < p { b } else { b - 1 };
                            assert(ni[a] == old_idx[a0]);
                            assert(ni[b] == old_idx[b0]);
                        }
                    }
                }
            }
            i = i + 1;
        }
        let mut out: Vec<&NamespaceEntry> = Vec::new();
        let mut k: usize = 0;
        while k < idx.len()
            invariant
                e == self@,
                k <= idx@.len(),
                out@.len() == k,
                forall|t: int| 0 <= t < idx@.len() ==> (#[trigger] idx@[t]) < e.len(),
                forall|t: int| 0 <= t < k ==> *out@[t] == e[idx@[t] as int],
            decreases idx@.len() - k,
        {
            out.push(&self.entries[idx[k]]);
            k = k + 1;
        }
        proof {
            let os = out@.map_values(|r: &NamespaceEntry| *r);
            assert forall|t: int| 0 <= t < os.len() implies (#[trigger] os[t]).owner@ == owner@ && e.contains(os[t]) by {
                assert(os[t] == e[idx@[t] as int]);
            }
            assert forall|j: int| 0 <= j < e.len() && (#[trigger] e[j]).owner@ == owner@ implies os.contains(e[j]) by {
                let t = choose|t: int| 0 <= t < idx@.len() && (#[trigger] idx@[t]) as int == j;
                assert(os[t] == e[idx@[t] as int]);
            }
            assert forall|a: int, b: int| 0 <= a < b < os.len() implies seq_lt(
                (#[trigger] os[a]).name@,
                (#[trigger] os[b]).name@,
            ) by {
                assert(os[a] == e[idx@[a] as int]);
                assert(os[b] == e[idx@[b] as int]);
            }
        }
        out
    }
}

} // verus!
