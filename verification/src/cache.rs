//! A keyed cache whose entries carry a tag (an ETag, or the revision a transfer was
//! parsed at): a stored value is reused only while its tag is still current.
use crate::text::equal_text;
use vstd::prelude::*;

verus! {

/// One cached value, under its key, with the tag it was stored with.
pub struct Entry<T> {
    pub key: String,
    pub tag: String,
    pub value: T,
}

/// Cached values, at most one per key.
pub struct Cache<T> {
    pub entries: Vec<Entry<T>>,
}

/// Whether an entry with this key is stored.
pub open spec fn holds<T>(entries: Seq<Entry<T>>, key: Seq<char>) -> bool {
    exists|i: int| 0 <= i < entries.len() && #[trigger] entries[i].key@ == key
}

/// The tag and value stored under `key`, if any.
pub open spec fn lookup<T>(entries: Seq<Entry<T>>, key: Seq<char>) -> Option<(Seq<char>, T)> {
    if holds(entries, key) {
        let i = choose|i: int| 0 <= i < entries.len() && #[trigger] entries[i].key@ == key;
        Some((entries[i].tag@, entries[i].value))
    } else {
        None
    }
}

/// No key is stored twice.
pub open spec fn unique_keys<T>(entries: Seq<Entry<T>>) -> bool {
    forall|i: int, j: int|
        0 <= i < entries.len() && 0 <= j < entries.len() && #[trigger] entries[i].key@
            == #[trigger] entries[j].key@ ==> i == j
}

proof fn lemma_lookup_at<T>(entries: Seq<Entry<T>>, i: int)
    requires
        unique_keys(entries),
        0 <= i < entries.len(),
    ensures
        lookup(entries, entries[i].key@) == Some((entries[i].tag@, entries[i].value)),
{
    let key = entries[i].key@;
    assert(holds(entries, key));
    let j = choose|j: int| 0 <= j < entries.len() && #[trigger] entries[j].key@ == key;
    assert(entries[j].key@ == entries[i].key@);
}

impl<T> Cache<T> {
    pub open spec fn wf(&self) -> bool {
        unique_keys(self.entries@)
    }

    /// The tag and value stored under `key`, if any.
    pub open spec fn get(&self, key: Seq<char>) -> Option<(Seq<char>, T)> {
        lookup(self.entries@, key)
    }

    /// An empty cache.
    pub fn new() -> (r: Cache<T>)
        ensures
            r.wf(),
            forall|k: Seq<char>| r.get(k) is None,
    {
        Cache { entries: Vec::new() }
    }

    fn position(&self, key: &str) -> (r: Option<usize>)
        requires
            self.wf(),
        ensures
            r matches Some(i) ==> i < self.entries@.len() && self.entries@[i as int].key@ == key@,
            r is None ==> !holds(self.entries@, key@),
    {
        let mut i: usize = 0;
        while i < self.entries.len()
            invariant
                i <= self.entries@.len(),
                forall|j: int| 0 <= j < i ==> self.entries@[j].key@ != key@,
            decreases self.entries.len() - i,
        {
            if equal_text(self.entries[i].key.as_str(), key) {
                return Some(i);
            }
            i = i + 1;
        }
        None
    }

    /// The entry stored under `key`, with its tag.
    pub fn entry(&self, key: &str) -> (r: Option<&Entry<T>>)
        requires
            self.wf(),
        ensures
            r is None <==> self.get(key@) is None,
            r matches Some(e) ==> e.key@ == key@ && self.get(key@) == Some((e.tag@, e.value)),
    {
        match self.position(key) {
            Some(i) => {
                proof {
                    lemma_lookup_at(self.entries@, i as int);
                }
                Some(&self.entries[i])
            },
            None => None,
        }
    }

    /// The value stored under `key`, if it was stored with the tag `tag`.
    pub fn current(&self, key: &str, tag: &str) -> (r: Option<&T>)
        requires
            self.wf(),
        ensures
            match self.get(key@) {
                Some((t, v)) => if t == tag@ {
                    r == Some(&v)
                } else {
                    r is None
                },
                None => r is None,
            },
    {
        match self.entry(key) {
            Some(e) => if equal_text(e.tag.as_str(), tag) {
                Some(&e.value)
            } else {
                None
            },
            None => None,
        }
    }

    /// Stores `value` under `key` with `tag`, replacing what was stored under that key.
    pub fn insert(&mut self, key: String, tag: String, value: T)
        requires
            old(self).wf(),
        ensures
            final(self).wf(),
            final(self).get(key@) == Some((tag@, value)),
            forall|k: Seq<char>| k != key@ ==> #[trigger] final(self).get(k) == old(self).get(k),
    {
        let ghost old_entries = self.entries@;
        let ghost key_text = key@;
        match self.position(key.as_str()) {
            Some(i) => {
                self.entries.set(i, Entry { key, tag, value });
                proof {
                    let s = self.entries@;
                    assert(unique_keys(s)) by {
                        assert forall|a: int, b: int|
                            0 <= a < s.len() && 0 <= b < s.len() && #[trigger] s[a].key@
                                == #[trigger] s[b].key@ implies a == b by {
                            assert(s[a].key@ == old_entries[a].key@);
                            assert(s[b].key@ == old_entries[b].key@);
                        }
                    }
                    lemma_lookup_at(s, i as int);
                    assert forall|k: Seq<char>| k != key_text implies #[trigger] lookup(s, k)
                        == lookup(old_entries, k) by {
                        if holds(old_entries, k) {
                            let j = choose|j: int|
                                0 <= j < old_entries.len() && #[trigger] old_entries[j].key@ == k;
                            assert(s[j] == old_entries[j]);
                            lemma_lookup_at(old_entries, j);
                            lemma_lookup_at(s, j);
                        } else {
                            assert(!holds(s, k)) by {
                                if holds(s, k) {
                                    let j = choose|j: int|
                                        0 <= j < s.len() && #[trigger] s[j].key@ == k;
                                    assert(old_entries[j].key@ == k);
                                }
                            }
                        }
                    }
                }
            },
            None => {
                self.entries.push(Entry { key, tag, value });
                proof {
                    let s = self.entries@;
                    let n = old_entries.len() as int;
                    assert(unique_keys(s)) by {
                        assert forall|a: int, b: int|
                            0 <= a < s.len() && 0 <= b < s.len() && #[trigger] s[a].key@
                                == #[trigger] s[b].key@ implies a == b by {
                            if a < n && b < n {
                                assert(s[a] == old_entries[a]);
                                assert(s[b] == old_entries[b]);
                            } else if a < n {
                                assert(old_entries[a].key@ == key_text);
                            } else if b < n {
                                assert(old_entries[b].key@ == key_text);
                            }
                        }
                    }
                    lemma_lookup_at(s, n);
                    assert forall|k: Seq<char>| k != key_text implies #[trigger] lookup(s, k)
                        == lookup(old_entries, k) by {
                        if holds(old_entries, k) {
                            let j = choose|j: int|
                                0 <= j < old_entries.len() && #[trigger] old_entries[j].key@ == k;
                            assert(s[j] == old_entries[j]);
                            lemma_lookup_at(old_entries, j);
                            lemma_lookup_at(s, j);
                        } else {
                            assert(!holds(s, k)) by {
                                if holds(s, k) {
                                    let j = choose|j: int|
                                        0 <= j < s.len() && #[trigger] s[j].key@ == k;
                                    if j < n {
                                        assert(old_entries[j].key@ == k);
                                    }
                                }
                            }
                        }
                    }
                }
            },
        }
    }
    /// Forgets what is stored under `key`.
    pub fn remove(&mut self, key: &str)
        requires
            old(self).wf(),
        ensures
            final(self).wf(),
            final(self).get(key@) is None,
            forall|k: Seq<char>| k != key@ ==> #[trigger] final(self).get(k) == old(self).get(k),
    {
        let ghost old_entries = self.entries@;
        match self.position(key) {
            Some(i) => {
                self.entries.remove(i);
                proof {
                    let s = self.entries@;
                    let n = old_entries.len() as int;
                    assert forall|j: int| 0 <= j < s.len() implies #[trigger] s[j] == (if j < i {
                        old_entries[j]
                    } else {
                        old_entries[j + 1]
                    }) by {}
                    assert(unique_keys(s)) by {
                        assert forall|a: int, b: int|
                            0 <= a < s.len() && 0 <= b < s.len() && #[trigger] s[a].key@
                                == #[trigger] s[b].key@ implies a == b by {
                            let a2 = if a < i { a } else { a + 1 };
                            let b2 = if b < i { b } else { b + 1 };
                            assert(old_entries[a2].key@ == old_entries[b2].key@);
                        }
                    }
                    assert(!holds(s, key@)) by {
                        if holds(s, key@) {
                            let j = choose|j: int| 0 <= j < s.len() && #[trigger] s[j].key@ == key@;
                            let j2 = if j < i { j } else { j + 1 };
                            assert(old_entries[j2].key@ == old_entries[i as int].key@);
                        }
                    }
                    assert forall|k: Seq<char>| k != key@ implies #[trigger] lookup(s, k)
                        == lookup(old_entries, k) by {
                        if holds(old_entries, k) {
                            let j = choose|j: int|
                                0 <= j < old_entries.len() && #[trigger] old_entries[j].key@ == k;
                            assert(j != i);
                            let j2 = if j < i { j } else { j - 1 };
                            assert(s[j2] == old_entries[j]);
                            lemma_lookup_at(old_entries, j);
                            lemma_lookup_at(s, j2);
                        } else {
                            assert(!holds(s, k)) by {
                                if holds(s, k) {
                                    let j = choose|j: int| 0 <= j < s.len() && #[trigger] s[j].key@ == k;
                                    let j2 = if j < i { j } else { j + 1 };
                                    assert(old_entries[j2].key@ == k);
                                }
                            }
                        }
                    }
                }
            },
            None => {},
        }
    }
}

} // verus!
