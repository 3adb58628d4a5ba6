//! The file server's catalogue: information about each stored file, keyed
//! by the file's identifier.

use vstd::prelude::*;

verus! {

/// What the server knows about a stored file.
#[derive(Clone, Debug)]
pub struct FileInfo {
    pub name: String,
    pub size: u64,
    pub mime_type: String,
    pub hash: String,
}

/// The value of a `FileInfo`.
pub struct FileInfoView {
    pub name: Seq<char>,
    pub size: u64,
    pub mime_type: Seq<char>,
    pub hash: Seq<char>,
}

impl View for FileInfo {
    type V = FileInfoView;

    open spec fn view(&self) -> FileInfoView {
        FileInfoView {
            name: self.name@,
            size: self.size,
            mime_type: self.mime_type@,
            hash: self.hash@,
        }
    }
}

impl FileInfo {
    /// A copy of this record.
    pub fn duplicate(&self) -> (r: FileInfo)
        ensures
            r == *self,
    {
        FileInfo {
            name: self.name.clone(),
            size: self.size,
            mime_type: self.mime_type.clone(),
            hash: self.hash.clone(),
        }
    }
}

/// A map from file identifiers to file information.
pub struct FileStore {
    entries: Vec<(String, FileInfo)>,
    contents: Ghost<Map<Seq<char>, FileInfoView>>,
}

impl View for FileStore {
    type V = Map<Seq<char>, FileInfoView>;

    closed spec fn view(&self) -> Map<Seq<char>, FileInfoView> {
        self.contents@
    }
}

/// The entries hold each identifier once, and the map is exactly what they
/// hold.
spec fn entries_match(es: Seq<(String, FileInfo)>, m: Map<Seq<char>, FileInfoView>) -> bool {
    &&& forall|i: int, j: int|
        0 <= i < es.len() && 0 <= j < es.len() && i != j ==> #[trigger] es[i].0@ != #[trigger] es[j].0@
    &&& forall|i: int|
        0 <= i < es.len() ==> m.contains_key(#[trigger] es[i].0@) && m[es[i].0@] == es[i].1@
    &&& forall|k: Seq<char>|
        #[trigger] m.contains_key(k) ==> exists|i: int| 0 <= i < es.len() && #[trigger] es[i].0@ == k
}

impl FileStore {
    /// The entries hold each identifier once, and the map is exactly what
    /// they hold.
    #[verifier::type_invariant]
    spec fn wf(&self) -> bool {
        entries_match(self.entries@, self.contents@)
    }

    /// The identifiers in the order `values` reports them.
    pub closed spec fn key_order(&self) -> Seq<Seq<char>> {
        self.entries@.map_values(|e: (String, FileInfo)| e.0@)
    }

    /// An empty catalogue.
    pub fn new() -> (s: FileStore)
        ensures
            s@ == Map::<Seq<char>, FileInfoView>::empty(),
    {
        FileStore { entries: Vec::new(), contents: Ghost(Map::empty()) }
    }

    /// The position of the entry with identifier `id`.
    fn position(&self, id: &String) -> (r: Option<usize>)
        ensures
            match r {
                Some(i) => i < self.entries@.len() && self.entries@[i as int].0@ == id@,
                None => !self@.contains_key(id@),
            },
    {
        proof {
            use_type_invariant(self);
        }
        let mut i: usize = 0;
        while i < self.entries.len()
            invariant
                i <= self.entries@.len(),
                forall|j: int| 0 <= j < i ==> #[trigger] self.entries@[j].0@ != id@,
            decreases self.entries@.len() - i,
        {
            if self.entries[i].0 == *id {
                return Some(i);
            }
            i += 1;
        }
        None
    }

    /// Records `info` under `id`, replacing what was recorded under it.
    pub fn insert(&mut self, id: String, info: FileInfo)
        ensures
            final(self)@ == old(self)@.insert(id@, info@),
    {
        proof {
            use_type_invariant(&*self);
        }
        let ghost k = id@;
        let ghost v = info@;
        let pos = self.position(&id);
        let mut taken = FileStore::new();
        std::mem::swap(self, &mut taken);
        proof {
            use_type_invariant(&taken);
        }
        let ghost old_entries = taken.entries@;
        let ghost old_map = taken.contents@;
        let ghost new_map = old_map.insert(k, v);
        assert(pos is None ==> !old_map.contains_key(k));
        assert(pos matches Some(i) ==> i < old_entries.len() && old_entries[i as int].0@ == k);
        let FileStore { mut entries, contents } = taken;
        assert(entries@ == old_entries);
        assert(forall|a: int| 0 <= a < old_entries.len() ==> old_map.contains_key(#[trigger] old_entries[a].0@)
            && old_map[old_entries[a].0@] == old_entries[a].1@);
        match pos {
            Some(i) => {
                entries.set(i, (id, info));
                assert forall|k2: Seq<char>| #[trigger]
                    new_map.contains_key(k2) implies exists|j: int|
                    0 <= j < entries@.len() && #[trigger] entries@[j].0@ == k2 by {
                    if k2 == k {
                        assert(entries@[i as int].0@ == k2);
                    } else {
                        let j = choose|j: int|
                            0 <= j < old_entries.len() && #[trigger] old_entries[j].0@ == k2;
                        assert(entries@[j].0@ == k2);
                    }
                }
            },
            None => {
                let ghost n = entries@.len();
                entries.push((id, info));
                assert(entries@[n as int].0@ == k);
                assert forall|k2: Seq<char>| #[trigger]
                    new_map.contains_key(k2) implies exists|j: int|
                    0 <= j < entries@.len() && #[trigger] entries@[j].0@ == k2 by {
                    if k2 == k {
                        assert(entries@[n as int].0@ == k2);
                    } else {
                        let j = choose|j: int|
                            0 <= j < old_entries.len() && #[trigger] old_entries[j].0@ == k2;
                        assert(entries@[j].0@ == k2);
                    }
                }
            },
        }
        assert forall|a: int, b: int|
            0 <= a < entries@.len() && 0 <= b < entries@.len() && a != b implies #[trigger] entries@[a].0@
            != #[trigger] entries@[b].0@ by {
            if a < old_entries.len() && b < old_entries.len() {
                assert(old_entries[a].0@ != old_entries[b].0@);
            } else if a < old_entries.len() {
                assert(old_map.contains_key(old_entries[a].0@));
            } else if b < old_entries.len() {
                assert(old_map.contains_key(old_entries[b].0@));
            }
        }
        assert forall|a: int| 0 <= a < entries@.len() implies new_map.contains_key(
            #[trigger] entries@[a].0@,
        ) && new_map[entries@[a].0@] == entries@[a].1@ by {
            if a < old_entries.len() && entries@[a].0@ != k {
                assert(entries@[a] == old_entries[a]);
            }
        }
        assert(entries_match(entries@, new_map));
        *self = FileStore { entries, contents: Ghost(new_map) };
    }

    /// The information recorded under `id`, if any.
    pub fn get(&self, id: &str) -> (r: Option<FileInfo>)
        ensures
            match r {
                Some(f) => self@.contains_key(id@) && f@ == self@[id@],
                None => !self@.contains_key(id@),
            },
    {
        proof {
            use_type_invariant(self);
        }
        let key = id.to_owned();
        match self.position(&key) {
            Some(i) => Some(self.entries[i].1.duplicate()),
            None => None,
        }
    }

    /// Every recorded file's information, each identifier once, in
    /// `key_order`.
    pub fn values(&self) -> (r: Vec<FileInfo>)
        ensures
            r@.len() == self.key_order().len(),
            self.key_order().no_duplicates(),
            self.key_order().to_set() == self@.dom(),
            forall|i: int|
                0 <= i < r@.len() ==> (#[trigger] r@[i])@ == self@[self.key_order()[i]],
    {
        proof {
            use_type_invariant(self);
        }
        let mut r: Vec<FileInfo> = Vec::new();
        let mut i: usize = 0;
        while i < self.entries.len()
            invariant
                self.wf(),
                i <= self.entries@.len(),
                r@.len() == i,
                forall|j: int| 0 <= j < i ==> (#[trigger] r@[j])@ == self@[self.key_order()[j]],
            decreases self.entries@.len() - i,
        {
            r.push(self.entries[i].1.duplicate());
            proof {
                assert(self.key_order()[i as int] == self.entries@[i as int].0@);
            }
            i += 1;
        }
        proof {
            let ks = self.key_order();
            assert forall|a: int, b: int| 0 <= a < ks.len() && 0 <= b < ks.len() && a != b implies ks[a]
                != ks[b] by {
                assert(ks[a] == self.entries@[a].0@);
                assert(ks[b] == self.entries@[b].0@);
            }
            assert forall|k: Seq<char>| ks.to_set().contains(k) == self@.dom().contains(k) by {
                if self@.dom().contains(k) {
                    let j = choose|j: int|
                        0 <= j < self.entries@.len() && #[trigger] self.entries@[j].0@ == k;
                    assert(ks[j] == k);
                }
                if ks.to_set().contains(k) {
                    let j = choose|j: int| 0 <= j < ks.len() && ks[j] == k;
                    assert(self.entries@[j].0@ == k);
                }
            }
            assert(ks.to_set() =~= self@.dom());
        }
        r
    }
}

} // verus!
