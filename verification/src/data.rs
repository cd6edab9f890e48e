use vstd::prelude::*;
use vstd::string::StringExecFns;
use crate::codec::{bincode_decoded, bincode_encoded, decode_pairs, encode_pairs, CodecError};
use crate::entries::{
    collected, distinct_paths, has_path, lemma_collected, lemma_position, lemma_survivors,
    lemma_upsert, model, position, survivors, upsert, weight_of,
};
use crate::paths::path_exists;
use crate::text::{decimal, push_decimal};
use crate::ranking::{descending, is_ranking, lemma_boundary_unique, lemma_ranked, ranked};
use crate::weight::{bump, bumped, decay, decayed, DECREMENT, DEFAULT_WEIGHT, INCREMENT};

verus! {

/// One line of a listing: the weight in decimal, then the path.
pub open spec fn line(e: (Seq<char>, u64)) -> Seq<char> {
    "weight="@ + decimal(e.1 as nat) + ",\tpath="@ + e.0 + "\n"@
}

/// The lines of the entries of `r`, from its last entry to its first.
pub open spec fn listing(r: Seq<(Seq<char>, u64)>) -> Seq<char>
    decreases r.len(),
{
    if r.len() == 0 {
        Seq::empty()
    } else {
        line(r.last()) + listing(r.drop_last())
    }
}

/// The weighted index: every remembered path with its weight, each path once,
/// in the order in which the paths were first seen.
#[derive(Debug)]
pub struct Data {
    list: Vec<(String, u64)>,
}

impl View for Data {
    type V = Seq<(Seq<char>, u64)>;

    closed spec fn view(&self) -> Seq<(Seq<char>, u64)> {
        model(self.list@)
    }
}

impl Clone for Data {
    fn clone(&self) -> (r: Self)
        ensures
            r@ == self@,
    {
        proof {
            use_type_invariant(self);
        }
        let mut list: Vec<(String, u64)> = Vec::new();
        let mut i: usize = 0;
        while i < self.list.len()
            invariant
                i <= self.list.len(),
                list.len() == i,
                forall|k: int| 0 <= k < i ==> list[k].0@ == self.list[k].0@ && list[k].1 == self.list[k].1,
            decreases self.list.len() - i,
        {
            let path = self.list[i].0.clone();
            list.push((path, self.list[i].1));
            i += 1;
        }
        assert(model(list@) =~= model(self.list@));
        Self { list }
    }
}

impl Data {
    #[verifier::type_invariant]
    spec fn paths_are_distinct(&self) -> bool {
        distinct_paths(model(self.list@))
    }

    /// An index without entries.
    pub fn new() -> (r: Self)
        ensures
            r@ == Seq::<(Seq<char>, u64)>::empty(),
    {
        let r = Self { list: Vec::new() };
        r
    }

    /// The number of entries. No path occurs twice among them.
    pub fn len(&self) -> (n: usize)
        ensures
            n == self@.len(),
            distinct_paths(self@),
    {
        proof {
            use_type_invariant(self);
        }
        self.list.len()
    }

    /// The weight stored for `path`, where it has an entry.
    pub fn weight(&self, path: &str) -> (r: Option<u64>)
        ensures
            r == if has_path(self@, path@) {
                Some(weight_of(self@, path@))
            } else {
                None
            },
    {
        let key = String::from_str(path);
        match self.find(&key) {
            Some(i) => Some(self.list[i].1),
            None => None,
        }
    }

    /// Gives `path` the weight `weight`, whether or not it has an entry.
    pub fn insert(&mut self, path: String, weight: u64)
        ensures
            final(self)@ == upsert(old(self)@, path@, weight),
            weight_of(final(self)@, path@) == weight,
    {
        let at = self.find(&path);
        self.store(path, at, weight);
    }

    /// Records a visit to `path`: a new path enters with the default weight, a
    /// known one is bumped by the standard increment.
    pub fn increase(&mut self, path: String)
        ensures
            final(self)@ == upsert(
                old(self)@,
                path@,
                if has_path(old(self)@, path@) {
                    bumped(weight_of(old(self)@, path@), INCREMENT)
                } else {
                    DEFAULT_WEIGHT
                },
            ),
            weight_of(final(self)@, path@) >= weight_of(old(self)@, path@),
    {
        let at = self.find(&path);
        let weight = match at {
            Some(i) => bump(self.list[i].1, INCREMENT),
            None => DEFAULT_WEIGHT,
        };
        self.store(path, at, weight);
    }

    /// Raises the weight of `path` by `increment`, combined in quadrature, if
    /// the path has an entry; says whether it had one.
    pub fn bump_existing(&mut self, path: &str, increment: u64) -> (known: bool)
        ensures
            known == has_path(old(self)@, path@),
            final(self)@ == if known {
                upsert(old(self)@, path@, bumped(weight_of(old(self)@, path@), increment))
            } else {
                old(self)@
            },
            weight_of(final(self)@, path@) >= weight_of(old(self)@, path@),
    {
        let key = String::from_str(path);
        let at = self.find(&key);
        match at {
            Some(i) => {
                let weight = bump(self.list[i].1, increment);
                self.store(key, at, weight);
                true
            },
            None => false,
        }
    }

    /// Lowers the weight of `path` by `decrement`, stopping at zero. A path
    /// without an entry gets one, with weight zero.
    pub fn decay(&mut self, path: String, decrement: u64)
        ensures
            final(self)@ == upsert(
                old(self)@,
                path@,
                decayed(weight_of(old(self)@, path@), decrement),
            ),
            weight_of(final(self)@, path@) <= weight_of(old(self)@, path@),
    {
        let at = self.find(&path);
        let weight = match at {
            Some(i) => decay(self.list[i].1, decrement),
            None => 0,
        };
        self.store(path, at, weight);
    }

    /// Lowers the weight of `path` by the standard decrement.
    pub fn decrease(&mut self, path: String)
        ensures
            final(self)@ == upsert(
                old(self)@,
                path@,
                decayed(weight_of(old(self)@, path@), DECREMENT),
            ),
            weight_of(final(self)@, path@) <= weight_of(old(self)@, path@),
    {
        self.decay(path, DECREMENT);
    }

    /// Drops every entry whose path is not on disk or whose weight is zero,
    /// given for each place whether its path is on disk, and says how many
    /// entries went.
    pub fn reclaim(&mut self, found: &Vec<bool>) -> (removed: usize)
        ensures
            final(self)@ == survivors(old(self)@, found@),
            removed == old(self)@.len() - final(self)@.len(),
    {
        proof {
            use_type_invariant(&*self);
            lemma_survivors(self@, found@);
        }
        let mut list: Vec<(String, u64)> = Vec::new();
        core::mem::swap(&mut self.list, &mut list);
        let ghost all = model(list@);
        let total = list.len();
        let mut kept: Vec<(String, u64)> = Vec::new();
        let mut i: usize = 0;
        for e in it: list
            invariant
                i == it.index(),
                model(it.seq()) == all,
                all.len() == total,
                model(kept@) == survivors(all.take(i as int), found@),
        {
            proof {
                assert(all.take(i + 1).drop_last() =~= all.take(i as int));
            }
            let live = i < found.len() && found[i] && e.1 != 0;
            if live {
                kept.push(e);
            }
            i += 1;
        }
        assert(all.take(i as int) =~= all);
        let removed = total - kept.len();
        core::mem::swap(&mut self.list, &mut kept);
        removed
    }

    /// Drops every entry whose path is not on disk now or whose weight is
    /// zero, and says how many entries went. Each path is looked up once; a
    /// lookup that fails counts as a path that is not there.
    pub fn purge(&mut self) -> (removed: usize)
        ensures
            exists|found: Seq<bool>|
                found.len() == old(self)@.len() && final(self)@ == #[trigger] survivors(
                    old(self)@,
                    found,
                ),
            removed == old(self)@.len() - final(self)@.len(),
    {
        let mut found: Vec<bool> = Vec::new();
        let mut i: usize = 0;
        while i < self.list.len()
            invariant
                i <= self.list.len(),
                found.len() == i,
            decreases self.list.len() - i,
        {
            found.push(path_exists(self.list[i].0.as_str()));
            i += 1;
        }
        self.reclaim(&found)
    }

    /// A snapshot of the entries by falling weight. Entries of equal weight
    /// come in the order in which their paths first entered the index.
    pub fn sorted(&self) -> (r: Sorted)
        ensures
            r@ == ranked(self@),
            is_ranking(r@, self@),
    {
        proof {
            use_type_invariant(self);
            lemma_ranked(self@);
        }
        let mut out: Vec<(String, u64)> = Vec::new();
        let mut k: usize = 0;
        while k < self.list.len()
            invariant
                k <= self.list.len(),
                model(out@) == ranked(model(self.list@).take(k as int)),
            decreases self.list.len() - k,
        {
            let weight = self.list[k].1;
            let mut p = out.len();
            while p > 0 && out[p - 1].1 < weight
                invariant
                    p <= out.len(),
                    forall|q: int| p <= q < out.len() ==> out[q].1 < weight,
                decreases p,
            {
                p -= 1;
            }
            let path = self.list[k].0.clone();
            proof {
                let before = model(out@);
                assert forall|q: int| p <= q < before.len() implies before[q].1 < weight by {}
                lemma_boundary_unique(before, weight, p as int);
                assert(model(self.list@).take(k + 1).drop_last() =~= model(self.list@).take(
                    k as int,
                ));
            }
            out.insert(p, (path, weight));
            k += 1;
        }
        assert(model(self.list@).take(k as int) =~= model(self.list@));
        Sorted { inner: out }
    }

    /// A listing of the index, one line for each entry, the lightest first.
    pub fn to_string(&self) -> (text: String)
        ensures
            text@ == listing(ranked(self@)),
    {
        let sorted = self.sorted();
        let ghost r = sorted@;
        let mut sb = String::new();
        let mut i = sorted.inner.len();
        assert(r.take(i as int) =~= r);
        while i > 0
            invariant
                i <= sorted.inner.len(),
                r == model(sorted.inner@),
                sb@ + listing(r.take(i as int)) == listing(r),
            decreases i,
        {
            let ghost before = sb@;
            proof {
                assert(r.take(i as int).drop_last() =~= r.take(i - 1));
            }
            i -= 1;
            let e = &sorted.inner[i];
            sb.append("weight=");
            push_decimal(&mut sb, e.1);
            sb.append(",\tpath=");
            sb.append(e.0.as_str());
            sb.append("\n");
            assert(sb@ + listing(r.take(i as int)) =~= before + (line(r[i as int]) + listing(
                r.take(i as int),
            )));
        }
        sb
    }

    /// Writes the index at the end of `writer`, as `bincode` encodes the list
    /// of its entries. Writing to a vector always succeeds.
    pub fn serialize_into(&self, writer: &mut Vec<u8>) -> (r: Result<(), CodecError>)
        ensures
            r is Ok,
            final(writer)@ == old(writer)@ + bincode_encoded(self@),
            distinct_paths(self@),
    {
        proof {
            use_type_invariant(self);
        }
        match encode_pairs(writer, &self.list) {
            Ok(_) => Ok(()),
            Err(_) => Err(CodecError::Encode),
        }
    }

    /// Reads an index from bytes that `bincode` wrote. A path that the bytes
    /// hold more than once keeps its first place and its last weight. Bytes
    /// written from an index give that index back.
    pub fn deserialize_from(bytes: &[u8]) -> (r: Result<Self, CodecError>)
        ensures
            match bincode_decoded(bytes@) {
                Some(pairs) => r is Ok && r->Ok_0@ == collected(pairs),
                None => r == Err::<Self, CodecError>(CodecError::Decode),
            },
            forall|index: Seq<(Seq<char>, u64)>|
                distinct_paths(index) && bytes@ == #[trigger] bincode_encoded(index) ==> r is Ok
                    && r->Ok_0@ == index,
    {
        match decode_pairs(bytes) {
            Ok(pairs) => {
                let mut data = Data::new();
                let total = pairs.len();
                let mut i: usize = 0;
                for e in it: pairs
                    invariant
                        i == it.index(),
                        it.seq().len() == total,
                        data@ == collected(model(it.seq()).take(i as int)),
                {
                    proof {
                        let all = model(it.seq());
                        assert(all.take(i + 1).drop_last() =~= all.take(i as int));
                    }
                    data.insert(e.0, e.1);
                    i += 1;
                }
                proof {
                    let all = bincode_decoded(bytes@)->Some_0;
                    assert(all.take(i as int) =~= all);
                    lemma_collected(all);
                }
                Ok(data)
            },
            Err(_) => Err(CodecError::Decode),
        }
    }

    fn find(&self, path: &String) -> (r: Option<usize>)
        ensures
            match r {
                Some(i) => i < self@.len() && self@[i as int].0 == path@ && has_path(
                    self@,
                    path@,
                ) && position(self@, path@) == i,
                None => !has_path(self@, path@),
            },
    {
        proof {
            use_type_invariant(self);
        }
        let mut i: usize = 0;
        while i < self.list.len()
            invariant
                i <= self.list.len(),
                distinct_paths(self@),
                forall|k: int| 0 <= k < i ==> (#[trigger] self@[k]).0 != path@,
            decreases self.list.len() - i,
        {
            if self.list[i].0 == *path {
                proof {
                    lemma_position(self@, path@, i as int);
                }
                return Some(i);
            }
            i += 1;
        }
        None
    }

    fn store(&mut self, path: String, at: Option<usize>, weight: u64)
        requires
            match at {
                Some(i) => i < old(self)@.len() && has_path(old(self)@, path@) && position(
                    old(self)@,
                    path@,
                ) == i,
                None => !has_path(old(self)@, path@),
            },
        ensures
            final(self)@ == upsert(old(self)@, path@, weight),
            weight_of(final(self)@, path@) == weight,
    {
        proof {
            use_type_invariant(&*self);
            lemma_upsert(self@, path@, weight);
        }
        let mut list: Vec<(String, u64)> = Vec::new();
        core::mem::swap(&mut self.list, &mut list);
        match at {
            Some(i) => {
                list.set(i, (path, weight));
            },
            None => {
                list.push((path, weight));
            },
        }
        assert(model(list@) =~= upsert(old(self)@, path@, weight));
        core::mem::swap(&mut self.list, &mut list);
    }
}

/// The entries of an index by falling weight, as they stood when the snapshot
/// was taken.
#[derive(Debug)]
pub struct Sorted {
    inner: Vec<(String, u64)>,
}

impl View for Sorted {
    type V = Seq<(Seq<char>, u64)>;

    closed spec fn view(&self) -> Seq<(Seq<char>, u64)> {
        model(self.inner@)
    }
}

impl Sorted {
    #[verifier::type_invariant]
    spec fn well_ordered(&self) -> bool {
        descending(model(self.inner@)) && distinct_paths(model(self.inner@))
    }

    /// The number of entries. Their weights never rise, and no path occurs
    /// twice among them.
    pub fn len(&self) -> (n: usize)
        ensures
            n == self@.len(),
            descending(self@),
            distinct_paths(self@),
    {
        proof {
            use_type_invariant(self);
        }
        self.inner.len()
    }

    /// The entry at place `i`, counted from the heaviest.
    pub fn get(&self, i: usize) -> (r: Option<&(String, u64)>)
        ensures
            match r {
                Some(e) => i < self@.len() && (e.0@, e.1) == self@[i as int],
                None => i >= self@.len(),
            },
    {
        if i < self.inner.len() {
            Some(&self.inner[i])
        } else {
            None
        }
    }

    /// The paths of the entries, from the heaviest to the lightest.
    pub fn paths(&self) -> (list: Vec<String>)
        ensures
            list.len() == self@.len(),
            forall|i: int| 0 <= i < list.len() ==> (#[trigger] list[i])@ == self@[i].0,
    {
        let mut list: Vec<String> = Vec::new();
        let mut i: usize = 0;
        while i < self.inner.len()
            invariant
                i <= self.inner.len(),
                list.len() == i,
                forall|k: int| 0 <= k < i ==> (#[trigger] list[k])@ == self.inner[k].0@,
            decreases self.inner.len() - i,
        {
            list.push(self.inner[i].0.clone());
            i += 1;
        }
        list
    }

    /// Walks the entries from the heaviest to the lightest.
    pub fn iter(&self) -> (it: std::slice::Iter<'_, (String, u64)>)
        ensures
            model(vstd::std_specs::slice::into_iter_elts(it)) == self@,
    {
        broadcast use vstd::std_specs::slice::group_slice_axioms;
        let it = self.inner.as_slice().iter();
        it
    }
}

} // verus!
