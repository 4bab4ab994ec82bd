//! Which directory a module call resolves to: its canonical form where one is
//! known, the declared path itself where none is.

use vstd::prelude::*;
use vstd::utf8::encode_utf8;

verus! {

/// The canonical forms that were found on disk, by the declared path they were
/// found for. A canonical form is held as the bytes of the path, which need not
/// be text.
pub struct KnownPaths {
    entries: Vec<(String, Vec<u8>)>,
}

/// The map that a list of entries stands for: a later entry replaces an earlier
/// one for the same path.
pub open spec fn entries_map(entries: Seq<(String, Vec<u8>)>) -> Map<Seq<char>, Seq<u8>>
    decreases entries.len(),
{
    if entries.len() == 0 {
        Map::empty()
    } else {
        entries_map(entries.drop_last()).insert(entries.last().0@, entries.last().1@)
    }
}

impl View for KnownPaths {
    type V = Map<Seq<char>, Seq<u8>>;

    closed spec fn view(&self) -> Map<Seq<char>, Seq<u8>> {
        entries_map(self.entries@)
    }
}

/// The bytes of the directory that a declared path resolves to, given the
/// canonical form that was found for it, if any.
pub open spec fn resolved(declared: Seq<char>, canonical: Option<Seq<u8>>) -> Seq<u8> {
    match canonical {
        Some(bytes) => bytes,
        None => encode_utf8(declared),
    }
}

/// What `known` says of `declared`.
pub open spec fn lookup(known: Map<Seq<char>, Seq<u8>>, declared: Seq<char>) -> Option<Seq<u8>> {
    if known.contains_key(declared) {
        Some(known[declared])
    } else {
        None
    }
}

impl KnownPaths {
    /// Nothing is known.
    pub fn new() -> (known: KnownPaths)
        ensures
            known@ == Map::<Seq<char>, Seq<u8>>::empty(),
    {
        KnownPaths { entries: Vec::new() }
    }

    /// Records that `declared` has the canonical form `canonical`.
    pub fn insert(&mut self, declared: String, canonical: Vec<u8>)
        ensures
            final(self)@ == old(self)@.insert(declared@, canonical@),
    {
        self.entries.push((declared, canonical));
        assert(self.entries@.drop_last() == old(self).entries@);
    }

    /// The canonical form recorded for `declared`, if there is one.
    pub fn get(&self, declared: &str) -> (canonical: Option<Vec<u8>>)
        ensures
            match canonical {
                Some(bytes) => lookup(self@, declared@) == Some(bytes@),
                None => lookup(self@, declared@) is None,
            },
    {
        let wanted = declared.to_owned();
        let mut found: Option<Vec<u8>> = None;
        let mut i: usize = 0;
        while i < self.entries.len()
            invariant
                i <= self.entries.len(),
                wanted@ == declared@,
                match found {
                    Some(bytes) => lookup(entries_map(self.entries@.take(i as int)), declared@)
                        == Some(bytes@),
                    None => lookup(entries_map(self.entries@.take(i as int)), declared@) is None,
                },
            decreases self.entries.len() - i,
        {
            assert(self.entries@.take(i + 1).drop_last() == self.entries@.take(i as int));
            if self.entries[i].0 == wanted {
                found = Some(self.entries[i].1.clone());
            }
            i = i + 1;
        }
        assert(self.entries@.take(i as int) == self.entries@);
        found
    }
}

/// The directory that a declared path resolves to: the canonical form where
/// there is one, else the declared path as it stands.
pub fn resolve(declared: &str, canonical: Option<Vec<u8>>) -> (source: Vec<u8>)
    ensures
        source@ == resolved(
            declared@,
            match canonical {
                Some(bytes) => Some(bytes@),
                None => None,
            },
        ),
{
    match canonical {
        Some(bytes) => bytes,
        None => declared.as_bytes_vec(),
    }
}

} // verus!
