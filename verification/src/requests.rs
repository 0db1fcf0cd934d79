//! A set of block requests.

use vstd::prelude::*;
use std::collections::HashSet;

verus! {

/// A block request: piece index, offset in the piece, length.
pub type Request = (u32, u32, u32);

/// The number a request is stored under: its three fields side by side.
pub open spec fn request_key(r: Request) -> u128 {
    (r.0 as int * 0x1_0000_0000_0000_0000 + r.1 as int * 0x1_0000_0000 + r.2 as int) as u128
}

/// The request stored under a number.
pub open spec fn key_request(key: u128) -> Request {
    (
        (key / 0x1_0000_0000_0000_0000) as u32,
        (key / 0x1_0000_0000 % 0x1_0000_0000) as u32,
        (key % 0x1_0000_0000) as u32,
    )
}

/// Every request has a number of its own, below 2^96.
pub proof fn lemma_request_key(r: Request)
    ensures
        request_key(r) < 0x1_0000_0000_0000_0000_0000_0000,
        key_request(request_key(r)) == r,
{
}

/// Every number below 2^96 is that of a request.
pub proof fn lemma_key_request(key: u128)
    requires
        key < 0x1_0000_0000_0000_0000_0000_0000,
    ensures
        request_key(key_request(key)) == key,
{
}

fn pack(index: u32, begin: u32, length: u32) -> (key: u128)
    ensures
        key == request_key((index, begin, length)),
{
    (index as u128) * 0x1_0000_0000_0000_0000 + (begin as u128) * 0x1_0000_0000 + (length as u128)
}

fn unpack(key: u128) -> (r: Request)
    requires
        key < 0x1_0000_0000_0000_0000_0000_0000,
    ensures
        r == key_request(key),
{
    (
        (key / 0x1_0000_0000_0000_0000) as u32,
        (key / 0x1_0000_0000 % 0x1_0000_0000) as u32,
        (key % 0x1_0000_0000) as u32,
    )
}

/// A set of block requests, hashed. Its view is the set of triples.
pub struct RequestSet {
    keys: HashSet<u128>,
}

impl View for RequestSet {
    type V = Set<Request>;

    closed spec fn view(&self) -> Set<Request> {
        Set::new(|r: Request| self.keys@.contains(request_key(r)))
    }
}

impl RequestSet {
    /// Every stored number is that of a request. Every set that this module
    /// hands out is well formed, and its methods keep it so.
    pub closed spec fn wf(&self) -> bool {
        forall|key: u128| self.keys@.contains(key) ==> key < 0x1_0000_0000_0000_0000_0000_0000
    }

    /// The empty set.
    pub fn new() -> (set: RequestSet)
        ensures
            set.wf(),
            set@ == Set::<Request>::empty(),
    {
        let set = RequestSet { keys: HashSet::new() };
        assert(set@ =~= Set::<Request>::empty());
        set
    }

    /// Adds a request. The result says whether it was new.
    pub fn insert(&mut self, index: u32, begin: u32, length: u32) -> (fresh: bool)
        requires
            old(self).wf(),
        ensures
            final(self).wf(),
            final(self)@ == old(self)@.insert((index, begin, length)),
            fresh == !old(self)@.contains((index, begin, length)),
    {
        proof {
            lemma_request_key((index, begin, length));
        }
        let key = pack(index, begin, length);
        let fresh = self.keys.insert(key);
        proof {
            assert forall|r: Request|
                self@.contains(r) == old(self)@.insert((index, begin, length)).contains(r) by {
                lemma_request_key(r);
            }
            assert(self@ =~= old(self)@.insert((index, begin, length)));
        }
        fresh
    }

    /// Takes a request out. The result says whether it was there.
    pub fn remove(&mut self, index: u32, begin: u32, length: u32) -> (found: bool)
        requires
            old(self).wf(),
        ensures
            final(self).wf(),
            final(self)@ == old(self)@.remove((index, begin, length)),
            found == old(self)@.contains((index, begin, length)),
    {
        let key = pack(index, begin, length);
        let found = self.keys.remove(&key);
        proof {
            assert forall|r: Request|
                self@.contains(r) == old(self)@.remove((index, begin, length)).contains(r) by {
                lemma_request_key(r);
                lemma_request_key((index, begin, length));
            }
            assert(self@ =~= old(self)@.remove((index, begin, length)));
        }
        found
    }

    /// Whether the request is in the set.
    pub fn contains(&self, index: u32, begin: u32, length: u32) -> (found: bool)
        ensures
            found == self@.contains((index, begin, length)),
    {
        let key = pack(index, begin, length);
        self.keys.contains(&key)
    }

    /// Whether the set holds nothing.
    pub fn is_empty(&self) -> (empty: bool)
        requires
            self.wf(),
        ensures
            empty == (self@ == Set::<Request>::empty()),
    {
        let empty = self.keys.is_empty();
        proof {
            if empty {
                assert(self.keys@.len() == 0);
                assert(self.keys@ =~= Set::<u128>::empty());
                assert(self@ =~= Set::<Request>::empty());
            } else {
                let key = self.keys@.choose();
                assert(self.keys@.contains(key));
                lemma_key_request(key);
                assert(self@.contains(key_request(key)));
            }
        }
        empty
    }

    /// Takes some request out and hands it back, or says that there is
    /// none. Which one leaves is up to the hash table.
    pub fn take(&mut self) -> (taken: Option<Request>)
        requires
            old(self).wf(),
        ensures
            final(self).wf(),
            match taken {
                Some(r) => old(self)@.contains(r) && final(self)@ == old(self)@.remove(r),
                None => old(self)@ == Set::<Request>::empty() && final(self)@ == old(self)@,
            },
    {
        let mut found: Option<u128> = None;
        for key in it: self.keys.iter()
            invariant_except_break
                found is None,
                it.index() == 0,
            ensures
                match found {
                    Some(k) => self.keys@.contains(k),
                    None => self.keys@.len() == 0,
                },
        {
            assert(it.seq().unref().to_set() == self.keys@);
            assert(it.seq().unref()[0] == *key);
            assert(it.seq().unref().contains(*key));
            found = Some(*key);
            break ;
        }
        match found {
            Some(key) => {
                proof {
                    lemma_key_request(key);
                }
                let (index, begin, length) = unpack(key);
                self.remove(index, begin, length);
                Some((index, begin, length))
            },
            None => {
                proof {
                    assert(self.keys@ =~= Set::<u128>::empty());
                    assert(self@ =~= Set::<Request>::empty());
                }
                None
            },
        }
    }
}

} // verus!
