//! Header map: name/value pairs whose names match case-insensitively and
//! where inserting a name again overwrites its value.

use vstd::prelude::*;
use crate::http::helpers::COLON;
use crate::http::helpers::bytes_eq;
use crate::http::helpers::copy_range;
use crate::http::helpers::find_byte;
use crate::http::helpers::lower_vec;
use crate::http::helpers::spec_find_byte;
use crate::http::helpers::spec_lower_seq;
use crate::http::helpers::spec_trim;
use crate::http::helpers::trim_copy;

verus! {

/// The mapping a pair list denotes: names folded to ASCII lower case, the
/// latest binding for a name winning.
pub open spec fn map_of_pairs(ps: Seq<(Seq<u8>, Seq<u8>)>) -> Map<Seq<u8>, Seq<u8>>
    decreases ps.len(),
{
    if ps.len() == 0 {
        Map::empty()
    } else {
        map_of_pairs(ps.drop_last()).insert(spec_lower_seq(ps.last().0), ps.last().1)
    }
}

/// Value bound to the lower-cased name `lkey`, latest binding first.
pub open spec fn spec_header_lookup(ps: Seq<(Seq<u8>, Seq<u8>)>, lkey: Seq<u8>) -> Option<Seq<u8>>
    decreases ps.len(),
{
    if ps.len() == 0 {
        None
    } else if spec_lower_seq(ps.last().0) == lkey {
        Some(ps.last().1)
    } else {
        spec_header_lookup(ps.drop_last(), lkey)
    }
}

/// The pair list with the value of the latest entry whose name matches
/// `key` case-insensitively replaced; the stored name is kept.
pub open spec fn spec_header_replace(ps: Seq<(Seq<u8>, Seq<u8>)>, key: Seq<u8>, value: Seq<u8>)
    -> Seq<(Seq<u8>, Seq<u8>)>
    recommends
        spec_header_lookup(ps, spec_lower_seq(key)) is Some,
    decreases ps.len(),
{
    if ps.len() == 0 {
        ps
    } else if spec_lower_seq(ps.last().0) == spec_lower_seq(key) {
        ps.drop_last().push((ps.last().0, value))
    } else {
        spec_header_replace(ps.drop_last(), key, value).push(ps.last())
    }
}

/// The pair list after inserting `(key, value)`: the latest entry whose
/// name matches case-insensitively has its value replaced, or a new pair
/// is appended.
pub open spec fn spec_header_insert(ps: Seq<(Seq<u8>, Seq<u8>)>, key: Seq<u8>, value: Seq<u8>)
    -> Seq<(Seq<u8>, Seq<u8>)> {
    if spec_header_lookup(ps, spec_lower_seq(key)) is Some {
        spec_header_replace(ps, key, value)
    } else {
        ps.push((key, value))
    }
}

/// Lookup agrees with the denoted mapping.
pub proof fn lemma_header_lookup_map(ps: Seq<(Seq<u8>, Seq<u8>)>, lkey: Seq<u8>)
    ensures
        match spec_header_lookup(ps, lkey) {
            Some(v) => map_of_pairs(ps).contains_key(lkey) && map_of_pairs(ps)[lkey] == v,
            None => !map_of_pairs(ps).contains_key(lkey),
        },
    decreases ps.len(),
{
    if ps.len() == 0 {
    } else {
        lemma_header_lookup_map(ps.drop_last(), lkey);
    }
}

/// Inserting a pair denotes inserting into the mapping under the
/// lower-cased name.
pub proof fn lemma_header_insert_map(ps: Seq<(Seq<u8>, Seq<u8>)>, key: Seq<u8>, value: Seq<u8>)
    ensures
        map_of_pairs(spec_header_insert(ps, key, value)) =~= map_of_pairs(ps).insert(
            spec_lower_seq(key),
            value,
        ),
{
    if spec_header_lookup(ps, spec_lower_seq(key)) is Some {
        lemma_header_replace_map(ps, key, value);
    } else {
        assert(ps.push((key, value)).drop_last() =~= ps);
    }
}

proof fn lemma_header_replace_map(ps: Seq<(Seq<u8>, Seq<u8>)>, key: Seq<u8>, value: Seq<u8>)
    requires
        spec_header_lookup(ps, spec_lower_seq(key)) is Some,
    ensures
        map_of_pairs(spec_header_replace(ps, key, value)) =~= map_of_pairs(ps).insert(
            spec_lower_seq(key),
            value,
        ),
    decreases ps.len(),
{
    if spec_lower_seq(ps.last().0) == spec_lower_seq(key) {
        assert(ps.drop_last().push((ps.last().0, value)).drop_last() =~= ps.drop_last());
    } else {
        lemma_header_replace_map(ps.drop_last(), key, value);
        assert(spec_header_replace(ps.drop_last(), key, value).push(ps.last()).drop_last()
            =~= spec_header_replace(ps.drop_last(), key, value));
    }
}

proof fn lemma_header_insert_is_update(ps: Seq<(Seq<u8>, Seq<u8>)>, key: Seq<u8>, value: Seq<
    u8,
>, i: int)
    requires
        0 <= i < ps.len(),
        spec_lower_seq(ps[i].0) == spec_lower_seq(key),
        forall|j: int| i < j < ps.len() ==> spec_lower_seq(#[trigger] ps[j].0) != spec_lower_seq(
            key,
        ),
    ensures
        spec_header_lookup(ps, spec_lower_seq(key)) is Some,
        spec_header_insert(ps, key, value) =~= ps.update(i, (ps[i].0, value)),
    decreases ps.len(),
{
    if i == ps.len() - 1 {
        assert(ps.drop_last().push((ps.last().0, value)) =~= ps.update(i, (ps[i].0, value)));
    } else {
        assert(spec_lower_seq(ps.last().0) != spec_lower_seq(key));
        lemma_header_insert_is_update(ps.drop_last(), key, value, i);
        assert(spec_header_replace(ps, key, value) =~= ps.update(i, (ps[i].0, value)));
    }
}

proof fn lemma_header_lookup_none(ps: Seq<(Seq<u8>, Seq<u8>)>, lkey: Seq<u8>)
    requires
        forall|j: int| 0 <= j < ps.len() ==> spec_lower_seq(#[trigger] ps[j].0) != lkey,
    ensures
        spec_header_lookup(ps, lkey) is None,
    decreases ps.len(),
{
    if ps.len() > 0 {
        lemma_header_lookup_none(ps.drop_last(), lkey);
    }
}

/// Header map built fresh for each request or response.
#[derive(Debug)]
pub struct Headers(Vec<(Vec<u8>, Vec<u8>)>);

impl View for Headers {
    type V = Map<Seq<u8>, Seq<u8>>;

    open spec fn view(&self) -> Map<Seq<u8>, Seq<u8>> {
        map_of_pairs(self.pairs())
    }
}

impl Headers {
    /// Name/value pairs in insertion order, names as inserted.
    pub closed spec fn pairs(&self) -> Seq<(Seq<u8>, Seq<u8>)> {
        Seq::new(self.0@.len(), |i: int| (self.0@[i].0@, self.0@[i].1@))
    }

    pub fn new() -> (r: Headers)
        ensures
            r.pairs() == Seq::<(Seq<u8>, Seq<u8>)>::empty(),
            r@ == Map::<Seq<u8>, Seq<u8>>::empty(),
    {
        let r = Headers(Vec::new());
        proof {
            assert(r.pairs() =~= Seq::<(Seq<u8>, Seq<u8>)>::empty());
        }
        r
    }

    pub fn is_empty(&self) -> (r: bool)
        ensures
            r == (self.pairs().len() == 0),
    {
        self.0.len() == 0
    }

    /// Number of stored pairs.
    pub fn pair_count(&self) -> (r: usize)
        ensures
            r == self.pairs().len(),
    {
        self.0.len()
    }

    /// Name of the pair at `i`, as inserted.
    pub fn key_at(&self, i: usize) -> (r: &Vec<u8>)
        requires
            i < self.pairs().len(),
        ensures
            r@ == self.pairs()[i as int].0,
    {
        &self.0[i].0
    }

    /// Value of the pair at `i`.
    pub fn value_at(&self, i: usize) -> (r: &Vec<u8>)
        requires
            i < self.pairs().len(),
        ensures
            r@ == self.pairs()[i as int].1,
    {
        &self.0[i].1
    }

    /// Bind `key` to `value`; a name already present (up to ASCII case)
    /// keeps its stored spelling and position but takes the new value.
    pub fn insert(&mut self, key: Vec<u8>, value: Vec<u8>)
        ensures
            final(self).pairs() == spec_header_insert(old(self).pairs(), key@, value@),
            final(self)@ == old(self)@.insert(spec_lower_seq(key@), value@),
    {
        let lkey = lower_vec(&key);
        let mut i: usize = self.0.len();
        while i > 0
            invariant
                0 <= i <= self.0@.len(),
                self.0 == old(self).0,
                lkey@ == spec_lower_seq(key@),
                forall|j: int|
                    i <= j < self.pairs().len() ==> spec_lower_seq(
                        #[trigger] self.pairs()[j].0,
                    ) != spec_lower_seq(key@),
            decreases i,
        {
            i = i - 1;
            let lk = lower_vec(&self.0[i].0);
            if bytes_eq(&lk, &lkey) {
                let klen = self.0[i].0.len();
                let k0 = copy_range(&self.0[i].0, 0, klen);
                proof {
                    assert(k0@ =~= self.pairs()[i as int].0);
                    lemma_header_insert_is_update(self.pairs(), key@, value@, i as int);
                    lemma_header_insert_map(self.pairs(), key@, value@);
                }
                self.0[i] = (k0, value);
                proof {
                    assert(self.pairs() =~= old(self).pairs().update(
                        i as int,
                        (old(self).pairs()[i as int].0, value@),
                    ));
                }
                return ;
            }
        }
        proof {
            lemma_header_lookup_none(self.pairs(), spec_lower_seq(key@));
            lemma_header_insert_map(self.pairs(), key@, value@);
        }
        self.0.push((key, value));
        proof {
            assert(self.pairs() =~= old(self).pairs().push((key@, value@)));
        }
    }

    /// Split a raw `name: value` line on its first colon and insert it;
    /// the value is trimmed, the name is not.
    pub fn insert_header_line(&mut self, line: &Vec<u8>)
        requires
            spec_find_byte(line@, COLON, 0) is Some,
        ensures
            match spec_find_byte(line@, COLON, 0) {
                Some(c) => {
                    &&& final(self).pairs() == spec_header_insert(
                        old(self).pairs(),
                        line@.subrange(0, c),
                        spec_trim(line@.subrange(c + 1, line@.len() as int)),
                    )
                    &&& final(self)@ == old(self)@.insert(
                        spec_lower_seq(line@.subrange(0, c)),
                        spec_trim(line@.subrange(c + 1, line@.len() as int)),
                    )
                },
                None => false,
            },
    {
        match find_byte(line, COLON, 0) {
            Some(c) => {
                let n = line.len();
                assert(c < n);
                let k = copy_range(line, 0, c);
                let v = trim_copy(line, c + 1, n);
                self.insert(k, v);
            },
            None => {
                proof {
                    assert(false);
                }
            },
        }
    }

    /// Value stored for `key`, matching names case-insensitively.
    pub fn get(&self, key: &Vec<u8>) -> (r: Option<&Vec<u8>>)
        ensures
            match r {
                Some(v) => self@.contains_key(spec_lower_seq(key@)) && v@ == self@[spec_lower_seq(
                    key@,
                )],
                None => !self@.contains_key(spec_lower_seq(key@)),
            },
    {
        let lkey = lower_vec(key);
        let mut i: usize = self.0.len();
        proof {
            assert(self.pairs().take(i as int) =~= self.pairs());
        }
        while i > 0
            invariant
                0 <= i <= self.0@.len(),
                lkey@ == spec_lower_seq(key@),
                spec_header_lookup(self.pairs(), spec_lower_seq(key@)) == spec_header_lookup(
                    self.pairs().take(i as int),
                    spec_lower_seq(key@),
                ),
            decreases i,
        {
            i = i - 1;
            let lk = lower_vec(&self.0[i].0);
            if bytes_eq(&lk, &lkey) {
                proof {
                    assert(self.pairs().take(i as int + 1).last() == self.pairs()[i as int]);
                    lemma_header_lookup_map(self.pairs(), spec_lower_seq(key@));
                }
                return Some(&self.0[i].1);
            }
            proof {
                assert(self.pairs().take(i as int + 1).drop_last() =~= self.pairs().take(
                    i as int,
                ));
            }
        }
        proof {
            assert(self.pairs().take(0) =~= Seq::<(Seq<u8>, Seq<u8>)>::empty());
            lemma_header_lookup_map(self.pairs(), spec_lower_seq(key@));
        }
        None
    }
}

} // verus!
