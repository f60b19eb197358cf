//! Package names compared case-insensitively (`unicase::UniCase`), and
//! small maps keyed by such names.

use vstd::prelude::*;

use unicase::UniCase;

verus! {

/// Whether `unicase` considers two texts equal ignoring case
/// (`UniCase::new(a) == UniCase::new(b)`: ASCII case folding for ASCII
/// texts, Unicode case folding otherwise).
pub uninterp spec fn unicase_eq(a: Seq<char>, b: Seq<char>) -> bool;

/// Whether every character of `s` is ASCII.
pub open spec fn is_ascii_text(s: Seq<char>) -> bool {
    forall|i: int| 0 <= i < s.len() ==> (#[trigger] s[i] as u32) < 128
}

/// A character with an ASCII capital letter made small.
pub open spec fn ascii_lower(c: char) -> char {
    if 65 <= (c as u32) <= 90 {
        ((c as u32) + 32) as char
    } else {
        c
    }
}

/// Two texts are equal once their ASCII capital letters are made small.
pub open spec fn ascii_fold_eq(a: Seq<char>, b: Seq<char>) -> bool {
    a.len() == b.len() && forall|i: int| 0 <= i < a.len() ==> ascii_lower(#[trigger] a[i]) == ascii_lower(b[i])
}

/// Compares two texts with `unicase`.
///
/// Trusted: the result is the named value [`unicase_eq`] of the texts. The
/// crate's equality is an `Eq`, so the same holds with the arguments
/// swapped; for two ASCII texts it compares them with
/// `str::eq_ignore_ascii_case`, so the result is whether they are equal
/// once ASCII capital letters are made small.
#[verifier::external_body]
pub(crate) fn unicase_equal(a: &str, b: &str) -> (res: bool)
    ensures
        res == unicase_eq(a@, b@),
        res == unicase_eq(b@, a@),
        is_ascii_text(a@) && is_ascii_text(b@) ==> (res <==> ascii_fold_eq(a@, b@)),
{
    UniCase::new(a) == UniCase::new(b)
}

/// Two package names are the same name when they are equal ignoring case:
/// for ASCII names, equal once their capital letters are made small;
/// otherwise equal, or equal under `unicase` (either way round).
pub open spec fn same_name(a: Seq<char>, b: Seq<char>) -> bool {
    if is_ascii_text(a) && is_ascii_text(b) {
        ascii_fold_eq(a, b)
    } else {
        a == b || unicase_eq(a, b) || unicase_eq(b, a)
    }
}

/// Whether two package names are the same name (see [`same_name`]).
pub fn names_match(a: &String, b: &String) -> (res: bool)
    ensures
        res == same_name(a@, b@),
        res == same_name(b@, a@),
{
    if *a == *b {
        true
    } else {
        unicase_equal(a.as_str(), b.as_str())
    }
}

/// Position of the first key that is the same name as `k` among the first
/// `n` entries.
pub open spec fn name_pos_upto<T>(m: Seq<(Seq<char>, T)>, k: Seq<char>, n: int) -> Option<int>
    decreases n,
{
    if n <= 0 || n > m.len() {
        None
    } else {
        match name_pos_upto(m, k, n - 1) {
            Some(i) => Some(i),
            None => if same_name(m[n - 1].0, k) {
                Some(n - 1)
            } else {
                None
            },
        }
    }
}

/// Position of the first key that is the same name as `k`.
pub open spec fn name_pos<T>(m: Seq<(Seq<char>, T)>, k: Seq<char>) -> Option<int> {
    name_pos_upto(m, k, m.len() as int)
}

/// The value stored under name `k`.
pub open spec fn name_get<T>(m: Seq<(Seq<char>, T)>, k: Seq<char>) -> Option<T> {
    match name_pos(m, k) {
        Some(i) => Some(m[i].1),
        None => None,
    }
}

/// The map after storing `v` under `k`: the value of the first entry with
/// the same name is replaced (its key is kept), else the entry is added at
/// the end.
pub open spec fn name_insert<T>(m: Seq<(Seq<char>, T)>, k: Seq<char>, v: T) -> Seq<(Seq<char>, T)> {
    match name_pos(m, k) {
        Some(i) => m.update(i, (m[i].0, v)),
        None => m.push((k, v)),
    }
}

pub proof fn lemma_name_pos_upto<T>(m: Seq<(Seq<char>, T)>, k: Seq<char>, n: int)
    requires
        0 <= n <= m.len(),
    ensures
        name_pos_upto(m, k, n) matches Some(i) ==> 0 <= i < n && same_name(m[i].0, k) && forall|
            j: int,
        | 0 <= j < i ==> !same_name(#[trigger] m[j].0, k),
        name_pos_upto(m, k, n) is None ==> forall|j: int|
            0 <= j < n ==> !same_name(#[trigger] m[j].0, k),
    decreases n,
{
    if n > 0 {
        lemma_name_pos_upto(m, k, n - 1);
    }
}

pub proof fn lemma_name_pos<T>(m: Seq<(Seq<char>, T)>, k: Seq<char>)
    ensures
        name_pos(m, k) matches Some(i) ==> 0 <= i < m.len() && same_name(m[i].0, k) && forall|
            j: int,
        | 0 <= j < i ==> !same_name(#[trigger] m[j].0, k),
        name_pos(m, k) is None ==> forall|j: int|
            0 <= j < m.len() ==> !same_name(#[trigger] m[j].0, k),
{
    lemma_name_pos_upto(m, k, m.len() as int);
}

/// What a name map holds of name `k` after `v` was stored under `k`: `v`.
pub proof fn lemma_name_get_insert<T>(m: Seq<(Seq<char>, T)>, k: Seq<char>, v: T)
    ensures
        name_get(name_insert(m, k, v), k) == Some(v),
{
    let m2 = name_insert(m, k, v);
    lemma_name_pos(m, k);
    lemma_name_pos(m2, k);
    match name_pos(m, k) {
        Some(i) => {
            assert(same_name(m2[i].0, k));
            if name_pos(m2, k) != Some(i) {
                let j = name_pos(m2, k).unwrap();
                assert(j < i);
                assert(m2[j] == m[j]);
            }
        },
        None => {
            let last = m.len() as int;
            assert(m2[last].0 == k);
            if name_pos(m2, k) != Some(last) {
                let j = name_pos(m2, k).unwrap();
                assert(m2[j] == m[j]);
            }
        },
    }
}

proof fn lemma_fold_same_key(k: Seq<char>, a: Seq<char>, b: Seq<char>)
    requires
        is_ascii_text(k),
        is_ascii_text(a),
        is_ascii_text(b),
        ascii_fold_eq(a, b),
    ensures
        same_name(k, a) == same_name(k, b),
{
    if ascii_fold_eq(k, a) {
        assert forall|i: int| 0 <= i < k.len() implies ascii_lower(#[trigger] k[i]) == ascii_lower(b[i]) by {
            assert(ascii_lower(k[i]) == ascii_lower(a[i]));
            assert(ascii_lower(a[i]) == ascii_lower(b[i]));
        }
    }
    if ascii_fold_eq(k, b) {
        assert forall|i: int| 0 <= i < k.len() implies ascii_lower(#[trigger] k[i]) == ascii_lower(a[i]) by {
            assert(ascii_lower(k[i]) == ascii_lower(b[i]));
            assert(ascii_lower(a[i]) == ascii_lower(b[i]));
        }
    }
}

proof fn lemma_fold_same_pos<T>(m: Seq<(Seq<char>, T)>, a: Seq<char>, b: Seq<char>, n: int)
    requires
        forall|j: int| 0 <= j < m.len() ==> is_ascii_text(#[trigger] m[j].0),
        is_ascii_text(a),
        is_ascii_text(b),
        ascii_fold_eq(a, b),
    ensures
        name_pos_upto(m, a, n) == name_pos_upto(m, b, n),
    decreases n,
{
    if n > 0 && n <= m.len() {
        lemma_fold_same_pos(m, a, b, n - 1);
        lemma_fold_same_key(m[n - 1].0, a, b);
    }
}

/// Looking a name up ignores the case of ASCII letters: in a map whose
/// keys are ASCII, two ASCII names that differ only in the case of their
/// letters find the same entry.
pub proof fn lemma_lookup_ignores_ascii_case<T>(m: Seq<(Seq<char>, T)>, a: Seq<char>, b: Seq<char>)
    requires
        forall|j: int| 0 <= j < m.len() ==> is_ascii_text(#[trigger] m[j].0),
        is_ascii_text(a),
        is_ascii_text(b),
        ascii_fold_eq(a, b),
    ensures
        name_pos(m, a) == name_pos(m, b),
        name_get(m, a) == name_get(m, b),
{
    lemma_fold_same_pos(m, a, b, m.len() as int);
}

/// A map from package names to values, keyed by [`same_name`]. It stands
/// where a `HashMap<UniCase<String>, T>` would: lookups find the entry whose
/// key is the same name, and storing under a name that is present replaces
/// that entry's value.
#[derive(Debug)]
pub struct NameMap<T> {
    pub entries: Vec<(String, T)>,
}

impl<T> View for NameMap<T> {
    type V = Seq<(Seq<char>, T)>;

    open spec fn view(&self) -> Seq<(Seq<char>, T)> {
        self.entries@.map_values(|e: (String, T)| (e.0@, e.1))
    }
}

impl<T> NameMap<T> {
    /// An empty map.
    pub fn new() -> (res: NameMap<T>)
        ensures
            res@ == Seq::<(Seq<char>, T)>::empty(),
    {
        let res = NameMap { entries: Vec::new() };
        assert(res@ =~= Seq::<(Seq<char>, T)>::empty());
        res
    }

    /// The number of entries.
    pub fn len(&self) -> (res: usize)
        ensures
            res == self@.len(),
    {
        self.entries.len()
    }

    /// Position of the entry for name `k`.
    pub fn position(&self, k: &String) -> (res: Option<usize>)
        ensures
            match res {
                Some(i) => name_pos(self@, k@) == Some(i as int),
                None => name_pos(self@, k@) is None,
            },
    {
        proof {
            lemma_name_pos(self@, k@);
        }
        let mut i: usize = 0;
        while i < self.entries.len()
            invariant
                i <= self.entries.len(),
                self@.len() == self.entries.len(),
                forall|j: int| 0 <= j < i ==> !same_name(#[trigger] self@[j].0, k@),
                name_pos(self@, k@) matches Some(p) ==> i <= p && same_name(self@[p].0, k@) && forall|
                    j: int,
                | 0 <= j < p ==> !same_name(#[trigger] self@[j].0, k@),
                name_pos(self@, k@) is None ==> forall|j: int|
                    0 <= j < self@.len() ==> !same_name(#[trigger] self@[j].0, k@),
            decreases self.entries.len() - i,
        {
            assert(self@[i as int].0 == self.entries@[i as int].0@);
            if names_match(&self.entries[i].0, k) {
                return Some(i);
            }
            i = i + 1;
        }
        None
    }

    /// The value stored under name `k`.
    pub fn get(&self, k: &String) -> (res: Option<&T>)
        ensures
            match res {
                Some(v) => name_get(self@, k@) == Some(*v),
                None => name_get(self@, k@) is None,
            },
    {
        match self.position(k) {
            Some(i) => {
                proof {
                    lemma_name_pos(self@, k@);
                }
                Some(&self.entries[i].1)
            },
            None => None,
        }
    }

    /// Whether a value is stored under name `k`.
    pub fn contains_key(&self, k: &String) -> (res: bool)
        ensures
            res == (name_get(self@, k@) is Some),
    {
        self.position(k).is_some()
    }

    /// Stores `v` under name `k` (see [`name_insert`]).
    pub fn insert(&mut self, k: String, v: T)
        ensures
            final(self)@ == name_insert(old(self)@, k@, v),
    {
        match self.position(&k) {
            Some(i) => {
                proof {
                    lemma_name_pos(self@, k@);
                }
                let ghost before = self@;
                let old_key = self.entries[i].0.clone();
                self.entries.set(i, (old_key, v));
                assert(self@ =~= before.update(i as int, (before[i as int].0, v)));
            },
            None => {
                let ghost before = self@;
                let ghost kv = k@;
                self.entries.push((k, v));
                assert(self@ =~= before.push((kv, v)));
            },
        }
    }
}

} // verus!
