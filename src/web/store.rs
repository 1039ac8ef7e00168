//! The key store: an immutable snapshot of key pairs, looked up by address.
use vstd::prelude::*;
use vstd::string::StrSliceExecFns;
use crate::web::models::KeyPair;

verus! {

/// The map that inserting each record in turn builds: a later record with an
/// address already present replaces the earlier one.
pub open spec fn records_map(s: Seq<KeyPair>) -> Map<Seq<char>, KeyPair>
    decreases s.len(),
{
    if s.len() == 0 {
        Map::empty()
    } else {
        records_map(s.drop_last()).insert(s.last().eoa_address@, s.last())
    }
}

/// Whether no record after index `i` has the address `a`.
pub open spec fn last_with_address(s: Seq<KeyPair>, a: Seq<char>, i: int) -> bool {
    forall|k: int| i < k < s.len() ==> (#[trigger] s[k]).eoa_address@ != a
}

proof fn lemma_records_map_last(s: Seq<KeyPair>, a: Seq<char>, i: int)
    requires
        0 <= i < s.len(),
        s[i].eoa_address@ == a,
        last_with_address(s, a, i),
    ensures
        records_map(s).contains_key(a),
        records_map(s)[a] == s[i],
    decreases s.len(),
{
    if i < s.len() - 1 {
        lemma_records_map_last(s.drop_last(), a, i);
    }
}

proof fn lemma_records_map_absent(s: Seq<KeyPair>, a: Seq<char>)
    requires
        last_with_address(s, a, -1),
    ensures
        !records_map(s).contains_key(a),
    decreases s.len(),
{
    if s.len() > 0 {
        lemma_records_map_absent(s.drop_last(), a);
    }
}

proof fn lemma_records_map_has(s: Seq<KeyPair>, a: Seq<char>)
    requires
        records_map(s).contains_key(a),
    ensures
        exists|i: int| 0 <= i < s.len() && s[i].eoa_address@ == a && last_with_address(s, a, i),
    decreases s.len(),
{
    if s.last().eoa_address@ == a {
        assert(last_with_address(s, a, s.len() - 1));
    } else {
        lemma_records_map_has(s.drop_last(), a);
        let i = choose|i: int|
            0 <= i < s.len() - 1 && s.drop_last()[i].eoa_address@ == a && last_with_address(
                s.drop_last(),
                a,
                i,
            );
        assert forall|k: int| i < k < s.len() implies (#[trigger] s[k]).eoa_address@ != a by {
            if k < s.len() - 1 {
                assert(s.drop_last()[k] == s[k]);
            }
        }
        assert(s[i].eoa_address@ == a && last_with_address(s, a, i));
    }
}

/// Whether two strings hold the same characters.
pub fn str_eq(a: &str, b: &str) -> (r: bool)
    ensures
        r == (a@ == b@),
{
    let n = a.unicode_len();
    if n != b.unicode_len() {
        return false;
    }
    let mut i: usize = 0;
    while i < n
        invariant
            n == a@.len(),
            n == b@.len(),
            i <= n,
            forall|k: int| 0 <= k < i ==> a@[k] == b@[k],
        decreases n - i,
    {
        if a.get_char(i) != b.get_char(i) {
            return false;
        }
        i += 1;
    }
    assert(a@ =~= b@);
    true
}

/// The stored key pairs. Loaded once before any request and never changed.
pub struct Store {
    players: Vec<KeyPair>,
}

impl View for Store {
    type V = Map<Seq<char>, KeyPair>;

    closed spec fn view(&self) -> Map<Seq<char>, KeyPair> {
        records_map(self.players@)
    }
}

impl Store {
    /// A store holding the given records, keyed by address; where two share an
    /// address, the later one is kept.
    pub fn new(records: Vec<KeyPair>) -> (r: Store)
        ensures
            r@ == records_map(records@),
    {
        Store { players: records }
    }

    /// The key pair stored under `eoa_address`, if any.
    pub fn get_key_pair(&self, eoa_address: &str) -> (r: Option<&KeyPair>)
        ensures
            r is Some <==> self@.contains_key(eoa_address@),
            r matches Some(k) ==> *k == self@[eoa_address@],
    {
        let mut i = self.players.len();
        while i > 0
            invariant
                i <= self.players@.len(),
                last_with_address(self.players@, eoa_address@, i - 1),
            decreases i,
        {
            let k = &self.players[i - 1];
            if str_eq(k.eoa_address.as_str(), eoa_address) {
                proof {
                    lemma_records_map_last(self.players@, eoa_address@, i - 1);
                }
                return Some(k);
            }
            i -= 1;
        }
        proof {
            lemma_records_map_absent(self.players@, eoa_address@);
        }
        None
    }

    /// Every stored key pair once: one for each address.
    pub fn list_key_pairs(&self) -> (r: Vec<&KeyPair>)
        ensures
            forall|j: int|
                0 <= j < r@.len() ==> self@.contains_key(r@[j].eoa_address@) && *r@[j]
                    == self@[r@[j].eoa_address@],
            forall|a: Seq<char>|
                self@.contains_key(a) ==> exists|j: int|
                    0 <= j < r@.len() && (#[trigger] r@[j]).eoa_address@ == a,
            forall|j1: int, j2: int|
                0 <= j1 < j2 < r@.len() ==> (#[trigger] r@[j1]).eoa_address@ != (
                #[trigger] r@[j2]).eoa_address@,
    {
        let ghost s = self.players@;
        let n = self.players.len();
        let mut out: Vec<&KeyPair> = Vec::new();
        let ghost mut idx: Seq<int> = Seq::empty();
        let mut i: usize = 0;
        while i < n
            invariant
                n == s.len(),
                s == self.players@,
                i <= n,
                idx.len() == out@.len(),
                forall|j: int|
                    0 <= j < idx.len() ==> 0 <= #[trigger] idx[j] < i && *out@[j] == s[idx[j]]
                        && last_with_address(s, s[idx[j]].eoa_address@, idx[j]),
                forall|j1: int, j2: int|
                    0 <= j1 < j2 < idx.len() ==> #[trigger] idx[j1] < #[trigger] idx[j2],
                forall|m: int|
                    0 <= m < i && last_with_address(s, s[m].eoa_address@, m) ==> exists|j: int|
                        0 <= j < idx.len() && #[trigger] idx[j] == m,
            decreases n - i,
        {
            let a = self.players[i].eoa_address.as_str();
            let mut k = i + 1;
            let mut later = false;
            while k < n
                invariant
                    i < k <= n,
                    n == s.len(),
                    s == self.players@,
                    a@ == s[i as int].eoa_address@,
                    !later ==> forall|m: int| i < m < k ==> (#[trigger] s[m]).eoa_address@ != a@,
                    later ==> !last_with_address(s, a@, i as int),
                decreases n - k,
            {
                if str_eq(self.players[k].eoa_address.as_str(), a) {
                    later = true;
                }
                k += 1;
            }
            let ghost old_idx = idx;
            if !later {
                proof {
                    idx = idx.push(i as int);
                }
                out.push(&self.players[i]);
            }
            proof {
                assert forall|m: int|
                    0 <= m < i + 1 && last_with_address(s, s[m].eoa_address@, m) implies exists|
                    j: int,
                | 0 <= j < idx.len() && #[trigger] idx[j] == m by {
                    if m == i {
                        assert(idx[idx.len() - 1] == m);
                    } else {
                        let j = choose|j: int| 0 <= j < old_idx.len() && #[trigger] old_idx[j] == m;
                        assert(idx[j] == m);
                    }
                }
            }
            i += 1;
        }
        proof {
            assert forall|j: int|
                0 <= j < out@.len() implies self@.contains_key(out@[j].eoa_address@) && *out@[j]
                == self@[out@[j].eoa_address@] by {
                lemma_records_map_last(s, s[idx[j]].eoa_address@, idx[j]);
            }
            assert forall|a: Seq<char>| self@.contains_key(a) implies exists|j: int|
                0 <= j < out@.len() && (#[trigger] out@[j]).eoa_address@ == a by {
                lemma_records_map_has(s, a);
                let m = choose|m: int|
                    0 <= m < s.len() && s[m].eoa_address@ == a && last_with_address(s, a, m);
                let j = choose|j: int| 0 <= j < idx.len() && #[trigger] idx[j] == m;
                assert(out@[j].eoa_address@ == a);
            }
            assert forall|j1: int, j2: int| 0 <= j1 < j2 < out@.len() implies (
            #[trigger] out@[j1]).eoa_address@ != (#[trigger] out@[j2]).eoa_address@ by {
                assert(idx[j1] < idx[j2]);
                assert(last_with_address(s, s[idx[j1]].eoa_address@, idx[j1]));
                assert(s[idx[j2]].eoa_address@ != s[idx[j1]].eoa_address@);
            }
        }
        out
    }
}

} // verus!
