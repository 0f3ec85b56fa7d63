//! Environment maps: the variables handed to the launched child process.
//!
//! An `Env` is an ordered list of name/value assignments; a later assignment
//! to the same name overrides an earlier one (last write wins), which is the
//! meaning of its `Map` view.

use vstd::prelude::*;
use vstd::string::*;

verus! {

/// Folds a sequence of name/value pairs into a map, later pairs overriding
/// earlier ones.
pub open spec fn pairs_to_map(s: Seq<(Seq<char>, Seq<char>)>) -> Map<Seq<char>, Seq<char>>
    decreases s.len(),
{
    if s.len() == 0 {
        Map::empty()
    } else {
        pairs_to_map(s.drop_last()).insert(s.last().0, s.last().1)
    }
}

/// The view of one executable pair.
pub open spec fn pair_view(p: (String, String)) -> (Seq<char>, Seq<char>) {
    (p.0@, p.1@)
}

/// An environment: name/value assignments for the child process, in the
/// order they were made.
pub struct Env {
    pub pairs: Vec<(String, String)>,
}

impl Env {
    /// The underlying assignments, in order.
    pub open spec fn spec_pairs(&self) -> Seq<(Seq<char>, Seq<char>)> {
        self.pairs@.map_values(|p: (String, String)| pair_view(p))
    }

    /// The environment as a map; a later assignment overrides an earlier one.
    pub open spec fn view(&self) -> Map<Seq<char>, Seq<char>> {
        pairs_to_map(self.spec_pairs())
    }

    /// An empty environment.
    pub fn new() -> (r: Env)
        ensures
            r@ == Map::<Seq<char>, Seq<char>>::empty(),
            r.spec_pairs() == Seq::<(Seq<char>, Seq<char>)>::empty(),
    {
        let e = Env { pairs: Vec::new() };
        proof {
            assert(e.pairs@.map_values(|p: (String, String)| pair_view(p)) =~= Seq::<(
                Seq<char>,
                Seq<char>,
            )>::empty());
        }
        e
    }

    /// Record an assignment; it overrides any earlier assignment to the same
    /// name.
    pub fn insert(&mut self, name: String, value: String)
        ensures
            final(self)@ == old(self)@.insert(name@, value@),
            final(self).spec_pairs() == old(self).spec_pairs().push((name@, value@)),
    {
        let ghost before = self.spec_pairs();
        let ghost nv = (name@, value@);
        self.pairs.push((name, value));
        proof {
            let after = self.spec_pairs();
            assert(after =~= before.push(nv));
            assert(after.drop_last() =~= before);
            assert(pairs_to_map(after) == pairs_to_map(before).insert(nv.0, nv.1));
        }
    }

    /// How many assignments were made.
    pub fn len(&self) -> (r: usize)
        ensures
            r == self.spec_pairs().len(),
    {
        self.pairs.len()
    }

    /// The value the child process will see for `name`: the latest
    /// assignment to it, or `None` if it was never assigned.
    pub fn get(&self, name: &str) -> (r: Option<&String>)
        ensures
            match r {
                Option::Some(v) => self@.contains_key(name@) && v@ == self@[name@],
                Option::None => !self@.contains_key(name@),
            },
    {
        let mut i: usize = self.pairs.len();
        while i > 0
            invariant
                i <= self.spec_pairs().len(),
                forall|j: int|
                    i <= j < self.spec_pairs().len() ==> (#[trigger] self.spec_pairs()[j]).0
                        != name@,
            decreases i,
        {
            i -= 1;
            let pair = &self.pairs[i];
            if str_eq(pair.0.as_str(), name) {
                proof {
                    lemma_pairs_to_map_get_at(self.spec_pairs(), name@, i as int);
                }
                return Some(&pair.1);
            }
        }
        proof {
            lemma_pairs_to_map_absent(self.spec_pairs(), name@);
        }
        None
    }
}

proof fn lemma_pairs_to_map_get_at(s: Seq<(Seq<char>, Seq<char>)>, k: Seq<char>, i: int)
    requires
        0 <= i < s.len(),
        s[i].0 == k,
        forall|j: int| i < j < s.len() ==> (#[trigger] s[j]).0 != k,
    ensures
        pairs_to_map(s).contains_key(k),
        pairs_to_map(s)[k] == s[i].1,
    decreases s.len(),
{
    if i < s.len() - 1 {
        assert(s.drop_last()[i] == s[i]);
        lemma_pairs_to_map_get_at(s.drop_last(), k, i);
    }
}

proof fn lemma_pairs_to_map_absent(s: Seq<(Seq<char>, Seq<char>)>, k: Seq<char>)
    requires
        forall|j: int| 0 <= j < s.len() ==> (#[trigger] s[j]).0 != k,
    ensures
        !pairs_to_map(s).contains_key(k),
    decreases s.len(),
{
    if s.len() > 0 {
        lemma_pairs_to_map_absent(s.drop_last(), k);
    }
}

/// Character-for-character string equality.
pub fn str_eq(a: &str, b: &str) -> (r: bool)
    ensures
        r == (a@ == b@),
{
    let na = a.unicode_len();
    let nb = b.unicode_len();
    if na != nb {
        return false;
    }
    let mut i: usize = 0;
    while i < na
        invariant
            i <= na,
            na == a@.len(),
            na == b@.len(),
            forall|j: int| 0 <= j < i ==> a@[j] == b@[j],
        decreases na - i,
    {
        if a.get_char(i) != b.get_char(i) {
            return false;
        }
        i += 1;
    }
    proof {
        assert(a@ =~= b@);
    }
    true
}

/// Canonicalizes a toggle value: `true` becomes `"1"`, `false` becomes `"0"`.
pub fn convert_bool(value: bool) -> (r: String)
    ensures
        value ==> r@ == "1"@,
        !value ==> r@ == "0"@,
{
    if value {
        String::from_str("1")
    } else {
        String::from_str("0")
    }
}

} // verus!
