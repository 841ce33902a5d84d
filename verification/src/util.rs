//! The persistent arena: insertion-ordered sets that keep one copy of each
//! node, and the pointers into them.

use crate::big::BigNat;
use crate::expr::Expr;
use crate::level::Level;
use crate::model::{self, fits, level_ptr, name_ptr, DagModel};
use crate::name::Name;
use std::collections::HashMap;
use vstd::prelude::*;

verus! {

broadcast use vstd::std_specs::hash::group_hash_axioms;

// ---------------------------------------------------------------------------
// Pointers
// ---------------------------------------------------------------------------

/// The dag that a pointer points into.
#[derive(Debug, Clone, Copy, PartialEq, Eq, Structural)]
pub enum DagMarker {
    /// The persistent dag, which outlives every declaration.
    ExportFile,
    /// The dag of the declaration that is being checked.
    TcCtx,
}

/// A pointer to a name.
#[derive(Debug, Clone, Copy, PartialEq, Eq, Structural)]
pub struct NamePtr {
    pub marker: DagMarker,
    pub idx: usize,
}

/// A pointer to a level.
#[derive(Debug, Clone, Copy, PartialEq, Eq, Structural)]
pub struct LevelPtr {
    pub marker: DagMarker,
    pub idx: usize,
}

/// A pointer to a sequence of levels.
#[derive(Debug, Clone, Copy, PartialEq, Eq, Structural)]
pub struct LevelsPtr {
    pub marker: DagMarker,
    pub idx: usize,
}

/// A pointer to an expression.
#[derive(Debug, Clone, Copy, PartialEq, Eq, Structural)]
pub struct ExprPtr {
    pub marker: DagMarker,
    pub idx: usize,
}

/// A pointer to a string.
#[derive(Debug, Clone, Copy, PartialEq, Eq, Structural)]
pub struct StringPtr {
    pub marker: DagMarker,
    pub idx: usize,
}

/// A pointer to a big natural number.
#[derive(Debug, Clone, Copy, PartialEq, Eq, Structural)]
pub struct BigUintPtr {
    pub marker: DagMarker,
    pub idx: usize,
}

// ---------------------------------------------------------------------------
// Hashing
// ---------------------------------------------------------------------------

/// The multiplier of [`mix`].
pub const HASH_FACTOR: u64 = 0x9e37_79b9_7f4a_7c15;

/// The hash `h` with the word `x` worked in.
pub open spec fn mixed(h: u64, x: u64) -> u64 {
    ((h ^ x) >> 29 ^ (h ^ x)).wrapping_mul(HASH_FACTOR)
}

/// Works the word `x` into the hash `h`.
pub fn mix(h: u64, x: u64) -> (r: u64)
    ensures
        r == mixed(h, x),
{
    ((h ^ x) >> 29 ^ (h ^ x)).wrapping_mul(HASH_FACTOR)
}

/// What an [`InternSet`] can hold: values with a hash and an equality, both
/// over the value's view.
pub trait Intern: View + Sized {
    /// The hash of a value with view `v`.
    spec fn hash_of(v: Self::V) -> u64;

    /// Hashes the value.
    fn hash64(&self) -> (h: u64)
        ensures
            h == Self::hash_of(self@),
    ;

    /// Whether two values are the same.
    fn same(&self, other: &Self) -> (b: bool)
        ensures
            b == (self@ == other@),
    ;
}

// ---------------------------------------------------------------------------
// Insertion-ordered sets
// ---------------------------------------------------------------------------

/// `s` with `x` at its end, or `s` itself where it holds `x` already.
pub open spec fn interned<A>(s: Seq<A>, x: A) -> Seq<A> {
    if s.contains(x) {
        s
    } else {
        s.push(x)
    }
}

/// Where `x` stands in `s` once it is interned there.
pub open spec fn interned_at<A>(s: Seq<A>, x: A) -> int {
    interned(s, x).index_of(x)
}

/// A set that keeps its items in the order in which they came, each once.
///
/// Items are found by hash: `heads` gives the newest item with a hash, and
/// `prev` gives for each item the next older one with the same hash, as one
/// more than its index, or 0.
pub struct InternSet<T: Intern> {
    items: Vec<T>,
    prev: Vec<usize>,
    heads: HashMap<u64, usize>,
}

impl<T: Intern> View for InternSet<T> {
    type V = Seq<T::V>;

    closed spec fn view(&self) -> Seq<T::V> {
        Seq::new(self.items@.len(), |i: int| self.items@[i]@)
    }
}

impl<T: Intern> InternSet<T> {
    spec fn hash_at(&self, i: int) -> u64 {
        T::hash_of(self@[i])
    }

    spec fn prev_ok(&self, i: int) -> bool {
        &&& self.prev@[i] <= i
        &&& self.prev@[i] > 0 ==> self.hash_at(self.prev@[i] - 1) == self.hash_at(i)
        &&& forall|j: int|
            self.prev@[i] <= j < i ==> #[trigger] self.hash_at(j) != self.hash_at(i)
    }

    spec fn head_ok(&self, h: u64) -> bool {
        if self.heads@.contains_key(h) {
            &&& self.heads@[h] < self@.len()
            &&& self.hash_at(self.heads@[h] as int) == h
            &&& forall|j: int| self.heads@[h] < j < self@.len() ==> #[trigger] self.hash_at(j) != h
        } else {
            forall|j: int| 0 <= j < self@.len() ==> #[trigger] self.hash_at(j) != h
        }
    }

    /// Whether no item occurs twice and every item can be found by its hash.
    pub closed spec fn wf(&self) -> bool {
        &&& self@.no_duplicates()
        &&& self.prev@.len() == self.items@.len()
        &&& forall|i: int| 0 <= i < self@.len() ==> #[trigger] self.prev_ok(i)
        &&& forall|h: u64| #[trigger] self.head_ok(h)
    }

    /// No item of a well-formed set occurs twice.
    pub proof fn lemma_wf(&self)
        requires
            self.wf(),
        ensures
            self@.no_duplicates(),
    {
    }

    /// A set holds no more items than there are indices.
    pub proof fn lemma_len(&self)
        ensures
            self@.len() <= usize::MAX,
    {
        assert(self.items@.len() == self.items.len());
    }

    /// An empty set.
    pub fn new() -> (r: Self)
        ensures
            r.wf(),
            r@ == Seq::<T::V>::empty(),
    {
        let r = InternSet { items: Vec::new(), prev: Vec::new(), heads: HashMap::new() };
        assert(r@ =~= Seq::<T::V>::empty());
        r
    }

    /// The number of items.
    pub fn len(&self) -> (n: usize)
        ensures
            n == self@.len(),
    {
        self.items.len()
    }

    /// The item at an index.
    pub fn get_index(&self, i: usize) -> (r: &T)
        requires
            i < self@.len(),
        ensures
            r@ == self@[i as int],
    {
        &self.items[i]
    }

    /// The index of an item.
    pub fn get_index_of(&self, x: &T) -> (r: Option<usize>)
        requires
            self.wf(),
        ensures
            match r {
                Some(i) => i < self@.len() && self@[i as int] == x@,
                None => !self@.contains(x@),
            },
    {
        let h = x.hash64();
        assert(self.head_ok(h));
        assert(self@.len() == self.items.len());
        let mut cur: usize = match self.heads.get(&h) {
            Some(top) => *top + 1,
            None => 0,
        };
        proof {
            assert forall|j: int| cur <= j < self@.len() implies #[trigger] self@[j] != x@ by {
                assert(self.hash_at(j) != h);
            }
        }
        while cur > 0
            invariant
                self.wf(),
                h == T::hash_of(x@),
                cur <= self@.len(),
                cur > 0 ==> self.hash_at(cur - 1) == h,
                forall|j: int| cur <= j < self@.len() ==> #[trigger] self@[j] != x@,
            decreases cur,
        {
            let i: usize = cur - 1;
            assert(self.prev_ok(i as int));
            if self.items[i].same(x) {
                assert(self@[i as int] == x@);
                return Some(i);
            }
            cur = self.prev[i];
            proof {
                assert forall|j: int| cur <= j < self@.len() implies #[trigger] self@[j] != x@ by {
                    if j < i {
                        assert(self.hash_at(j) != h);
                    } else if j == i {
                        assert(self@[j] == self.items@[j]@);
                    }
                }
            }
        }
        None
    }

    /// Inserts an item unless it is there already; returns its index.
    pub fn insert_full(&mut self, x: T) -> (r: usize)
        requires
            old(self).wf(),
        ensures
            final(self).wf(),
            final(self)@ == interned(old(self)@, x@),
            r < final(self)@.len(),
            final(self)@[r as int] == x@,
            r == interned_at(old(self)@, x@),
    {
        let ghost s = self@;
        match self.get_index_of(&x) {
            Some(i) => {
                assert(s.contains(x@)) by {
                    assert(s[i as int] == x@);
                }
                proof {
                    lemma_index_of(s, i as int);
                }
                i
            },
            None => {
                let ghost before = *self;
                let h = x.hash64();
                assert(self.head_ok(h));
                let idx: usize = self.items.len();
                let older: usize = match self.heads.get(&h) {
                    Some(top) => *top + 1,
                    None => 0,
                };
                let ghost v = x@;
                self.items.push(x);
                self.prev.push(older);
                self.heads.insert(h, idx);
                proof {
                    assert(self@ =~= s.push(v));
                    assert forall|i: int| 0 <= i < self@.len() implies #[trigger] self.prev_ok(
                        i,
                    ) by {
                        if i < idx {
                            assert(before.prev_ok(i));
                            assert(forall|j: int|
                                0 <= j < idx ==> self.hash_at(j) == #[trigger] before.hash_at(j));
                            assert forall|j: int| self.prev@[i] <= j < i implies #[trigger]
                            self.hash_at(j) != self.hash_at(i) by {
                                assert(before.hash_at(j) != before.hash_at(i));
                            }
                        } else {
                            assert forall|j: int| self.prev@[i] <= j < i implies #[trigger]
                            self.hash_at(j) != self.hash_at(i) by {
                                assert(before.hash_at(j) != h);
                            }
                            if older > 0 {
                                assert(before.hash_at(older - 1) == h);
                            }
                        }
                    }
                    assert forall|k: u64| #[trigger] self.head_ok(k) by {
                        assert(before.head_ok(k));
                        assert(self.hash_at(idx as int) == h);
                        if k != h {
                            if self.heads@.contains_key(k) {
                                assert(before.hash_at(self.heads@[k] as int) == k);
                            }
                            assert forall|j: int|
                                0 <= j < idx && before.hash_at(j) != k implies #[trigger]
                            self.hash_at(j) != k by {}
                        }
                    }
                    assert(self@.no_duplicates());
                    lemma_index_of(self@, idx as int);
                }
                idx
            },
        }
    }
}

/// In a sequence without duplicates an item stands at one index only.
pub proof fn lemma_index_of<A>(s: Seq<A>, i: int)
    requires
        s.no_duplicates(),
        0 <= i < s.len(),
    ensures
        s.index_of(s[i]) == i,
        s.contains(s[i]),
{
    assert(s.contains(s[i]));
    let k = s.index_of(s[i]);
    assert(0 <= k < s.len() && s[k] == s[i]);
}

// ---------------------------------------------------------------------------
// The dag
// ---------------------------------------------------------------------------

/// The arena: one copy of each name, level, expression, string and sequence of
/// levels, and of each big natural number where it keeps any.
pub struct LeanDag {
    pub names: InternSet<Name>,
    pub levels: InternSet<Level>,
    pub exprs: InternSet<Expr>,
    pub strings: InternSet<String>,
    pub uparams: InternSet<Vec<LevelPtr>>,
    pub bignums: Option<InternSet<BigNat>>,
}

impl View for LeanDag {
    type V = DagModel;

    open spec fn view(&self) -> DagModel {
        DagModel {
            names: self.names@,
            levels: self.levels@,
            exprs: self.exprs@,
            strings: self.strings@,
            uparams: self.uparams@,
            bignums: match self.bignums {
                Some(s) => Some(s@),
                None => None,
            },
        }
    }
}

impl LeanDag {
    /// Whether each of the sets is well-formed.
    pub open spec fn sets_wf(&self) -> bool {
        &&& self.names.wf()
        &&& self.levels.wf()
        &&& self.exprs.wf()
        &&& self.strings.wf()
        &&& self.uparams.wf()
        &&& self.bignums matches Some(s) ==> s.wf()
    }

    /// Whether the sets are well-formed and what they hold is an arena.
    pub open spec fn wf(&self) -> bool {
        self.sets_wf() && model::wf(self@)
    }

    /// Every index of an arena in memory fits in a pointer.
    pub proof fn lemma_fits(&self)
        ensures
            fits(self@),
    {
        self.names.lemma_len();
        self.levels.lemma_len();
        self.exprs.lemma_len();
        self.strings.lemma_len();
        self.uparams.lemma_len();
        if let Some(s) = self.bignums {
            s.lemma_len();
        }
    }

    /// An arena that holds the anonymous name and the level zero, and that
    /// keeps big natural numbers where `bignums` says so.
    pub fn new(bignums: bool) -> (r: Self)
        ensures
            r.wf(),
            r@ == (DagModel {
                names: seq![Name::Anon],
                levels: seq![Level::Zero],
                exprs: seq![],
                strings: seq![],
                uparams: seq![],
                bignums: if bignums {
                    Some(seq![])
                } else {
                    None
                },
            }),
    {
        let mut names: InternSet<Name> = InternSet::new();
        let mut levels: InternSet<Level> = InternSet::new();
        names.insert_full(Name::Anon);
        levels.insert_full(Level::Zero);
        let r = LeanDag {
            names,
            levels,
            exprs: InternSet::new(),
            strings: InternSet::new(),
            uparams: InternSet::new(),
            bignums: if bignums {
                Some(InternSet::new())
            } else {
                None
            },
        };
        proof {
            reveal(model::wf);
            assert(r.names@ =~= seq![Name::Anon]);
            assert(r.levels@ =~= seq![Level::Zero]);
            r.names.lemma_wf();
            r.levels.lemma_wf();
        }
        r
    }

    /// The anonymous name.
    pub fn anonymous(&self) -> (r: NamePtr)
        ensures
            r == name_ptr(0),
    {
        NamePtr { marker: DagMarker::ExportFile, idx: 0 }
    }

    /// The level zero.
    pub fn zero(&self) -> (r: LevelPtr)
        ensures
            r == level_ptr(0),
    {
        LevelPtr { marker: DagMarker::ExportFile, idx: 0 }
    }
}

// ---------------------------------------------------------------------------
// Hashing of sequences
// ---------------------------------------------------------------------------

/// The hash `h` with all of `words` worked in, in order.
pub open spec fn mixed_words(h: u64, words: Seq<u64>) -> u64
    decreases words.len(),
{
    if words.len() == 0 {
        h
    } else {
        mixed(mixed_words(h, words.drop_last()), words.last())
    }
}

/// Hash seed of a string.
pub const STRING_HASH: u64 = 197;

/// Hash seed of a sequence of levels.
pub const LEVELS_HASH: u64 = 199;

/// Hash seed of a big natural number.
pub const BIGNUM_HASH: u64 = 211;

impl Intern for String {
    open spec fn hash_of(v: Seq<char>) -> u64 {
        mixed_words(STRING_HASH, vstd::utf8::encode_utf8(v).map_values(|b: u8| b as u64))
    }

    fn hash64(&self) -> (h: u64) {
        let bytes = self.as_str().as_bytes();
        let ghost words = bytes@.map_values(|b: u8| b as u64);
        let mut h = STRING_HASH;
        let mut i: usize = 0;
        while i < bytes.len()
            invariant
                i <= bytes.len(),
                words == bytes@.map_values(|b: u8| b as u64),
                h == mixed_words(STRING_HASH, words.take(i as int)),
            decreases bytes.len() - i,
        {
            h = mix(h, bytes[i] as u64);
            proof {
                assert(words.take(i + 1).drop_last() =~= words.take(i as int));
            }
            i = i + 1;
        }
        proof {
            assert(words.take(i as int) =~= words);
        }
        h
    }

    fn same(&self, other: &String) -> (b: bool) {
        *self == *other
    }
}

impl Intern for Vec<LevelPtr> {
    open spec fn hash_of(v: Seq<LevelPtr>) -> u64 {
        mixed_words(LEVELS_HASH, v.map_values(|p: LevelPtr| p.idx as u64))
    }

    fn hash64(&self) -> (h: u64) {
        let ghost words = self@.map_values(|p: LevelPtr| p.idx as u64);
        let mut h = LEVELS_HASH;
        let mut i: usize = 0;
        while i < self.len()
            invariant
                i <= self.len(),
                words == self@.map_values(|p: LevelPtr| p.idx as u64),
                h == mixed_words(LEVELS_HASH, words.take(i as int)),
            decreases self.len() - i,
        {
            h = mix(h, self[i].idx as u64);
            proof {
                assert(words.take(i + 1).drop_last() =~= words.take(i as int));
            }
            i = i + 1;
        }
        proof {
            assert(words.take(i as int) =~= words);
        }
        h
    }

    fn same(&self, other: &Vec<LevelPtr>) -> (b: bool) {
        if self.len() != other.len() {
            return false;
        }
        let mut i: usize = 0;
        while i < self.len()
            invariant
                i <= self.len(),
                self.len() == other.len(),
                forall|j: int| 0 <= j < i ==> self@[j] == other@[j],
            decreases self.len() - i,
        {
            if self[i] != other[i] {
                return false;
            }
            i = i + 1;
        }
        assert(self@ =~= other@);
        true
    }
}

impl Intern for BigNat {
    open spec fn hash_of(v: Seq<u64>) -> u64 {
        mixed_words(BIGNUM_HASH, v)
    }

    fn hash64(&self) -> (h: u64) {
        let ghost words = self@;
        let mut h = BIGNUM_HASH;
        let mut i: usize = 0;
        while i < self.limbs.len()
            invariant
                i <= self.limbs.len(),
                words == self.limbs@,
                h == mixed_words(BIGNUM_HASH, words.take(i as int)),
            decreases self.limbs.len() - i,
        {
            h = mix(h, self.limbs[i]);
            proof {
                assert(words.take(i + 1).drop_last() =~= words.take(i as int));
            }
            i = i + 1;
        }
        proof {
            assert(words.take(i as int) =~= words);
        }
        h
    }

    fn same(&self, other: &BigNat) -> (b: bool) {
        if self.limbs.len() != other.limbs.len() {
            return false;
        }
        let mut i: usize = 0;
        while i < self.limbs.len()
            invariant
                i <= self.limbs.len(),
                self.limbs.len() == other.limbs.len(),
                forall|j: int| 0 <= j < i ==> self@[j] == other@[j],
            decreases self.limbs.len() - i,
        {
            if self.limbs[i] != other.limbs[i] {
                return false;
            }
            i = i + 1;
        }
        assert(self@ =~= other@);
        true
    }
}

} // verus!
