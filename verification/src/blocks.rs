//! Received blocks, by piece index and offset.

use vstd::prelude::*;
use std::collections::HashMap;
use std::collections::HashSet;
use vstd::std_specs::iter::IteratorSpec;

verus! {

/// Where a block belongs: piece index, offset in the piece.
pub type Place = (u32, u32);

/// The number a block is stored under: index and offset side by side.
pub open spec fn place_key(p: Place) -> u64 {
    (p.0 as int * 0x1_0000_0000 + p.1 as int) as u64
}

/// The place stored under a number.
pub open spec fn key_place(key: u64) -> Place {
    ((key / 0x1_0000_0000) as u32, (key % 0x1_0000_0000) as u32)
}

/// Places and numbers correspond one to one.
pub proof fn lemma_place_key(p: Place, key: u64)
    ensures
        key_place(place_key(p)) == p,
        place_key(key_place(key)) == key,
{
}

fn pack(index: u32, begin: u32) -> (key: u64)
    ensures
        key == place_key((index, begin)),
{
    (index as u64) * 0x1_0000_0000 + (begin as u64)
}

/// A copy of a run of bytes.
pub fn copy_of(bytes: &[u8]) -> (copy: Vec<u8>)
    ensures
        copy@ == bytes@,
{
    let mut copy: Vec<u8> = Vec::new();
    copy.extend_from_slice(bytes);
    copy
}

/// Blocks by place, hashed. Its view maps each place to the block's bytes.
pub struct BlockMap {
    blocks: HashMap<u64, Vec<u8>>,
}

impl View for BlockMap {
    type V = Map<Place, Seq<u8>>;

    closed spec fn view(&self) -> Map<Place, Seq<u8>> {
        Map::new(
            |p: Place| self.blocks@.contains_key(place_key(p)),
            |p: Place| self.blocks@[place_key(p)]@,
        )
    }
}

/// The piece indices that have a block in the map.
pub open spec fn indices_of(blocks: Map<Place, Seq<u8>>) -> Set<u32> {
    Set::new(|index: u32| exists|begin: u32| blocks.contains_key((index, begin)))
}

impl BlockMap {
    /// The empty map.
    pub fn new() -> (map: BlockMap)
        ensures
            map@ == Map::<Place, Seq<u8>>::empty(),
    {
        let map = BlockMap { blocks: HashMap::new() };
        assert(map@ =~= Map::<Place, Seq<u8>>::empty());
        map
    }

    /// Stores a block at its place, in place of any block that was there.
    pub fn insert(&mut self, index: u32, begin: u32, block: Vec<u8>)
        ensures
            final(self)@ == old(self)@.insert((index, begin), block@),
    {
        let key = pack(index, begin);
        self.blocks.insert(key, block);
        proof {
            assert forall|p: Place| #[trigger]
                self@.contains_key(p) == old(self)@.insert((index, begin), block@).contains_key(
                    p,
                ) by {
                lemma_place_key(p, 0);
                lemma_place_key((index, begin), 0);
            }
            assert forall|p: Place| #[trigger] self@.contains_key(p) implies self@[p] == old(
                self,
            )@.insert((index, begin), block@)[p] by {
                lemma_place_key(p, 0);
                lemma_place_key((index, begin), 0);
            }
            assert(self@ =~= old(self)@.insert((index, begin), block@));
        }
    }

    /// The block at a place, if there is one.
    pub fn get(&self, index: u32, begin: u32) -> (found: Option<&Vec<u8>>)
        ensures
            match found {
                Some(block) => self@.contains_key((index, begin)) && block@ == self@[(
                    index,
                    begin,
                )],
                None => !self@.contains_key((index, begin)),
            },
    {
        let key = pack(index, begin);
        self.blocks.get(&key)
    }

    /// Stores a copy of every block of `other`, in place of any block that
    /// was at the same place.
    pub fn load(&mut self, other: &BlockMap)
        ensures
            final(self)@ == old(self)@.union_prefer_right(other@),
    {
        let ghost before = self.blocks@;
        let ghost all = other.blocks.iter().remaining().unref();
        let ghost mut count: int = 0;
        for entry in it: other.blocks.iter()
            invariant
                it.seq().unref() == all,
                it.seq().no_duplicates(),
                count == it.index(),
                forall|i: int|
                    0 <= i < count ==> self.blocks@.contains_key(#[trigger] all[i].0)
                        && self.blocks@[all[i].0]@ == all[i].1@,
                forall|key: u64|
                    (forall|i: int| 0 <= i < count ==> all[i].0 != key)
                        ==> #[trigger] self.blocks@.contains_key(key) == before.contains_key(key)
                        && (before.contains_key(key) ==> self.blocks@[key] == before[key]),
        {
            let (key, block) = entry;
            assert(all[count] == (*key, *block));
            assert forall|i: int| 0 <= i < count implies all[i].0 != *key by {
                assert(other.blocks@[*it.seq()[i].0] == *it.seq()[i].1);
                assert(other.blocks@[*it.seq()[count].0] == *it.seq()[count].1);
                assert(all[i] == (*it.seq()[i].0, *it.seq()[i].1));
                if all[i].0 == *key {
                    assert(it.seq()[i] == it.seq()[count]);
                }
            }
            self.blocks.insert(*key, copy_of(block.as_slice()));
            proof {
                count = count + 1;
            }
        }
        proof {
            let merged = old(self)@.union_prefer_right(other@);
            let pairs = other.blocks.iter().remaining();
            assert(count == all.len());
            assert forall|key: u64| other.blocks@.contains_key(key) implies exists|i: int|
                0 <= i < count && all[i].0 == key && all[i].1 == other.blocks@[key] by {
                assert(pairs.contains((&key, &other.blocks@[key])));
                let i = choose|i: int| 0 <= i < pairs.len() && pairs[i] == (&key, &other.blocks@[key]);
                assert(all[i] == (*pairs[i].0, *pairs[i].1));
            }
            assert forall|i: int| 0 <= i < count implies other.blocks@.contains_key(
                #[trigger] all[i].0,
            ) by {
                assert(other.blocks@.contains_key(*pairs[i].0));
                assert(all[i] == (*pairs[i].0, *pairs[i].1));
            }
            assert forall|p: Place| #[trigger] self@.contains_key(p) == merged.contains_key(p) by {
                let key = place_key(p);
                if other.blocks@.contains_key(key) {
                    let i = choose|i: int| 0 <= i < count && all[i].0 == key;
                    assert(self.blocks@.contains_key(all[i].0));
                }
            }
            assert forall|p: Place| #[trigger] self@.contains_key(p) implies self@[p] == merged[p] by {
                let key = place_key(p);
                if other.blocks@.contains_key(key) {
                    let i = choose|i: int|
                        0 <= i < count && all[i].0 == key && all[i].1 == other.blocks@[key];
                    assert(self.blocks@[all[i].0]@ == all[i].1@);
                }
            }
            assert(self@ =~= merged);
        }
    }

    /// The piece indices that have a block in the map, each once, in no
    /// particular order.
    pub fn indices(&self) -> (found: Vec<u32>)
        ensures
            found@.no_duplicates(),
            found@.to_set() == indices_of(self@),
    {
        let ghost all = self.blocks.keys().remaining().unref();
        let ghost mut count: int = 0;
        let mut seen: HashSet<u32> = HashSet::new();
        let mut found: Vec<u32> = Vec::new();
        for key in it: self.blocks.keys()
            invariant
                it.seq().unref() == all,
                count == it.index(),
                found@.no_duplicates(),
                forall|x: u32| found@.contains(x) <==> seen@.contains(x),
                forall|i: int| 0 <= i < count ==> seen@.contains(#[trigger] key_place(all[i]).0),
                forall|x: u32|
                    seen@.contains(x) ==> exists|i: int|
                        0 <= i < count && #[trigger] key_place(all[i]).0 == x,
        {
            assert(all[count] == *key);
            let index: u32 = (*key / 0x1_0000_0000) as u32;
            let ghost had = found@;
            if seen.insert(index) {
                found.push(index);
                assert forall|x: u32| found@.contains(x) <==> seen@.contains(x) by {
                    if had.contains(x) {
                        let i = choose|i: int| 0 <= i < had.len() && had[i] == x;
                        assert(found@[i] == x);
                    }
                    if x == index {
                        assert(found@[had.len() as int] == x);
                    }
                }
            }
            proof {
                assert forall|x: u32| seen@.contains(x) implies exists|i: int|
                    0 <= i < count + 1 && #[trigger] key_place(all[i]).0 == x by {
                    if x == index {
                        assert(key_place(all[count]).0 == x);
                    } else {
                        let i = choose|i: int| 0 <= i < count && key_place(all[i]).0 == x;
                        assert(key_place(all[i]).0 == x);
                    }
                }
                count = count + 1;
            }
        }
        proof {
            let keys = self.blocks.keys().remaining();
            assert(keys.unref().to_set() == self.blocks@.dom());
            assert(count == all.len());
            assert forall|x: u32| found@.to_set().contains(x) == indices_of(self@).contains(x) by {
                if seen@.contains(x) {
                    let i = choose|i: int| 0 <= i < count && key_place(all[i]).0 == x;
                    assert(all.contains(all[i]));
                    assert(self.blocks@.contains_key(all[i]));
                    lemma_place_key((0, 0), all[i]);
                    assert(self@.contains_key((x, key_place(all[i]).1)));
                }
                if indices_of(self@).contains(x) {
                    let begin = choose|begin: u32| self@.contains_key((x, begin));
                    let key = place_key((x, begin));
                    lemma_place_key((x, begin), 0);
                    assert(all.to_set().contains(key));
                    let i = choose|i: int| 0 <= i < all.len() && all[i] == key;
                    assert(seen@.contains(key_place(all[i]).0));
                }
            }
            assert(found@.to_set() =~= indices_of(self@));
        }
        found
    }
}

} // verus!
