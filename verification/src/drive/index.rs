//! The file index: entries by identifier, and the identifiers of files by
//! owner, by lowercase name and by lowercase keyword.

use vstd::prelude::*;
use crate::table::{clone_strings, find_text, string_views, Table};
use crate::text::{lowercase, split_whitespace, to_lowercase, words};

verus! {

/// An indexed file.
#[derive(Debug)]
pub struct FileIndexEntry {
    pub file_id: String,
    pub name: String,
    pub owner: String,
    pub keywords: Vec<String>,
    pub size_bytes: u64,
    pub created_at: u64,
}

/// The contents of an index entry.
pub struct EntryView {
    pub file_id: Seq<char>,
    pub name: Seq<char>,
    pub owner: Seq<char>,
    pub keywords: Seq<Seq<char>>,
    pub size_bytes: u64,
    pub created_at: u64,
}

impl View for FileIndexEntry {
    type V = EntryView;

    open spec fn view(&self) -> EntryView {
        EntryView {
            file_id: self.file_id@,
            name: self.name@,
            owner: self.owner@,
            keywords: string_views(self.keywords@),
            size_bytes: self.size_bytes,
            created_at: self.created_at,
        }
    }
}

impl Clone for FileIndexEntry {
    fn clone(&self) -> (r: Self)
        ensures
            r@ == self@,
    {
        FileIndexEntry {
            file_id: self.file_id.clone(),
            name: self.name.clone(),
            owner: self.owner.clone(),
            keywords: clone_strings(&self.keywords),
            size_bytes: self.size_bytes,
            created_at: self.created_at,
        }
    }
}

/// A search hit: a file and the number of query words whose keyword
/// lists name it.
#[derive(Debug, Clone)]
pub struct SearchHit {
    pub file_id: String,
    pub name: String,
    pub hits: u64,
}

/// The identifiers a table keeps under `key`.
pub open spec fn ids_under(m: Map<Seq<char>, Vec<String>>, key: Seq<char>) -> Set<Seq<char>> {
    Set::new(|x: Seq<char>| m.contains_key(key) && string_views(m[key]@).contains(x))
}

/// Each identifier list holds each identifier once.
pub open spec fn lists_distinct(m: Map<Seq<char>, Vec<String>>) -> bool {
    forall|k: Seq<char>| #[trigger] m.contains_key(k) ==> string_views(m[k]@).no_duplicates()
}

/// The keywords of an entry, lowercased.
pub open spec fn lowered(kws: Seq<Seq<char>>) -> Seq<Seq<char>> {
    Seq::new(kws.len(), |i: int| lowercase(kws[i]))
}

/// The number of words whose keyword list names `id`, counting repeated
/// words each time.
pub open spec fn hit_count(ws: Seq<Seq<char>>, kw: Map<Seq<char>, Vec<String>>, id: Seq<char>) -> nat
    decreases ws.len(),
{
    if ws.len() == 0 {
        0
    } else {
        hit_count(ws.drop_last(), kw, id) + (if ids_under(kw, ws.last()).contains(id) { 1nat } else { 0nat })
    }
}

/// Add `id` to the list under `key`.
fn add_id(t: &mut Table<Vec<String>>, key: String, id: &String)
    requires
        old(t).wf(),
        lists_distinct(old(t).map()),
    ensures
        final(t).wf(),
        lists_distinct(final(t).map()),
        ids_under(final(t).map(), key@) == ids_under(old(t).map(), key@).insert(id@),
        forall|k: Seq<char>| k != key@ ==> #[trigger] ids_under(final(t).map(), k) == ids_under(old(t).map(), k),
{
    let ghost m0 = t.map();
    let mut list = match t.get(&key) {
        Some(v) => clone_strings(v),
        None => Vec::new(),
    };
    let ghost l0 = string_views(list@);
    assert(m0.contains_key(key@) ==> l0 == string_views(m0[key@]@));
    assert(!m0.contains_key(key@) ==> l0 =~= Seq::<Seq<char>>::empty());
    match find_text(&list, id.as_str()) {
        Some(i) => {
            assert(l0[i as int] == id@);
            assert forall|x: Seq<char>| string_views(list@).contains(x) <==> (l0.contains(x) || x == id@) by {
                if x == id@ {
                    assert(l0[i as int] == x);
                }
            }
        },
        None => {
            list.push(id.clone());
            proof {
                assert(string_views(list@) =~= l0.push(id@));
                let l1 = string_views(list@);
                assert forall|x: Seq<char>| l1.contains(x) <==> (l0.contains(x) || x == id@) by {
                    if l1.contains(x) {
                        let i = choose|i: int| 0 <= i < l1.len() && #[trigger] l1[i] == x;
                        if i < l0.len() { assert(l0[i] == x); }
                    }
                    if l0.contains(x) {
                        let i = choose|i: int| 0 <= i < l0.len() && #[trigger] l0[i] == x;
                        assert(l1[i] == x);
                    }
                    if x == id@ { assert(l1[l0.len() as int] == x); }
                }
                assert forall|a: int, b: int| 0 <= a < string_views(list@).len() && 0 <= b < string_views(list@).len()
                    && a != b implies string_views(list@)[a] != string_views(list@)[b] by {
                    if b == l0.len() {
                        assert(l0[a] == string_views(list@)[a]);
                    } else if a == l0.len() {
                        assert(l0[b] == string_views(list@)[b]);
                    }
                }
            }
        },
    }
    let ghost l1 = string_views(list@);
    assert(l1.no_duplicates());
    t.insert(key, list);
    proof {
        assert(ids_under(t.map(), key@) =~= ids_under(m0, key@).insert(id@));
        assert forall|k: Seq<char>| k != key@ implies #[trigger] ids_under(t.map(), k) == ids_under(m0, k) by {
            assert(ids_under(t.map(), k) =~= ids_under(m0, k));
        }
    }
}

/// Take `id` out of the list under `key`, if there is one.
fn remove_id(t: &mut Table<Vec<String>>, key: String, id: &String)
    requires
        old(t).wf(),
        lists_distinct(old(t).map()),
    ensures
        final(t).wf(),
        lists_distinct(final(t).map()),
        ids_under(final(t).map(), key@) == ids_under(old(t).map(), key@).remove(id@),
        forall|k: Seq<char>| k != key@ ==> #[trigger] ids_under(final(t).map(), k) == ids_under(old(t).map(), k),
{
    let ghost m0 = t.map();
    let old_list = match t.get(&key) {
        Some(v) => v,
        None => {
            assert(ids_under(m0, key@) =~= ids_under(m0, key@).remove(id@));
            return;
        },
    };
    let ghost l0 = string_views(old_list@);
    let mut list: Vec<String> = Vec::new();
    let mut i: usize = 0;
    while i < old_list.len()
        invariant
            i <= old_list@.len(),
            l0 == string_views(old_list@),
            l0.no_duplicates(),
            string_views(list@).no_duplicates(),
            forall|x: Seq<char>| string_views(list@).contains(x) <==> (l0.take(i as int).contains(x) && x != id@),
        decreases old_list.len() - i,
    {
        let ghost prev = string_views(list@);
        let ghost x0 = l0[i as int];
        proof {
            assert forall|x: Seq<char>| l0.take(i + 1).contains(x) <==> (l0.take(i as int).contains(x) || x == x0) by {
                if l0.take(i + 1).contains(x) {
                    let t = choose|t: int| 0 <= t < i + 1 && #[trigger] l0.take(i + 1)[t] == x;
                    if t < i { assert(l0.take(i as int)[t] == x); }
                }
                if l0.take(i as int).contains(x) {
                    let t = choose|t: int| 0 <= t < i && #[trigger] l0.take(i as int)[t] == x;
                    assert(l0.take(i + 1)[t] == x);
                }
                if x == x0 { assert(l0.take(i + 1)[i as int] == x); }
            }
        }
        if old_list[i] == *id {
            assert(x0 == id@);
            assert forall|x: Seq<char>| string_views(list@).contains(x) <==> (l0.take(i + 1).contains(x) && x != id@) by {
                assert(string_views(list@) == prev);
            }
        } else {
            list.push(old_list[i].clone());
            proof {
                assert(string_views(list@) =~= prev.push(x0));
                assert(!l0.take(i as int).contains(x0)) by {
                    if l0.take(i as int).contains(x0) {
                        let t = choose|t: int| 0 <= t < i && #[trigger] l0.take(i as int)[t] == x0;
                        assert(l0[t] == l0[i as int]);
                    }
                }
                assert forall|x: Seq<char>| string_views(list@).contains(x) <==> (prev.contains(x) || x == x0) by {
                    if string_views(list@).contains(x) {
                        let t = choose|t: int| 0 <= t < string_views(list@).len() && #[trigger] string_views(list@)[t] == x;
                        if t < prev.len() { assert(prev[t] == x); }
                    }
                    if prev.contains(x) {
                        let t = choose|t: int| 0 <= t < prev.len() && #[trigger] prev[t] == x;
                        assert(string_views(list@)[t] == x);
                    }
                    if x == x0 { assert(string_views(list@)[prev.len() as int] == x); }
                }
                assert(x0 != id@);
                assert forall|x: Seq<char>| string_views(list@).contains(x) <==> (l0.take(i + 1).contains(x) && x != id@) by {
                    assert(string_views(list@).contains(x) == (prev.contains(x) || x == x0));
                    assert(prev.contains(x) == (l0.take(i as int).contains(x) && x != id@));
                    assert(l0.take(i + 1).contains(x) == (l0.take(i as int).contains(x) || x == x0));
                }
                assert forall|a: int, b: int| 0 <= a < string_views(list@).len() && 0 <= b < string_views(list@).len()
                    && a != b implies string_views(list@)[a] != string_views(list@)[b] by {
                    if b == prev.len() {
                        assert(prev[a] == string_views(list@)[a]);
                        assert(prev.contains(prev[a]));
                    } else if a == prev.len() {
                        assert(prev[b] == string_views(list@)[b]);
                        assert(prev.contains(prev[b]));
                    }
                }
            }
        }
        i = i + 1;
    }
    assert(l0.take(l0.len() as int) =~= l0);
    t.insert(key, list);
    proof {
        assert(ids_under(t.map(), key@) =~= ids_under(m0, key@).remove(id@));
        assert forall|k: Seq<char>| k != key@ implies #[trigger] ids_under(t.map(), k) == ids_under(m0, k) by {
            assert(ids_under(t.map(), k) =~= ids_under(m0, k));
        }
    }
}

/// Indexing then looking up gives the entry back, and after removal the
/// lookup finds nothing; other files are untouched.
pub proof fn law_index_then_lookup(entries: Map<Seq<char>, EntryView>, e: EntryView, other: Seq<char>)
    requires
        other != e.file_id,
    ensures
        entries.insert(e.file_id, e).contains_key(e.file_id),
        entries.insert(e.file_id, e)[e.file_id] == e,
        !entries.insert(e.file_id, e).remove(e.file_id).contains_key(e.file_id),
        entries.insert(e.file_id, e).remove(e.file_id).contains_key(other) == entries.contains_key(other),
{
}

/// The index.
pub struct FileIndex {
    by_id: Table<FileIndexEntry>,
    by_owner: Table<Vec<String>>,
    by_name: Table<Vec<String>>,
    by_keyword: Table<Vec<String>>,
}

impl FileIndex {
    /// The indexed entries, by identifier.
    pub closed spec fn entries(&self) -> Map<Seq<char>, EntryView> {
        Map::new(|k: Seq<char>| self.by_id.map().contains_key(k), |k: Seq<char>| self.by_id.map()[k]@)
    }

    /// The identifiers listed under an owner.
    pub closed spec fn owner_ids(&self, owner: Seq<char>) -> Set<Seq<char>> {
        ids_under(self.by_owner.map(), owner)
    }

    /// The identifiers listed under a lowercase name.
    pub closed spec fn name_ids(&self, name: Seq<char>) -> Set<Seq<char>> {
        ids_under(self.by_name.map(), name)
    }

    /// The identifiers listed under a lowercase keyword.
    pub closed spec fn keyword_ids(&self, keyword: Seq<char>) -> Set<Seq<char>> {
        ids_under(self.by_keyword.map(), keyword)
    }

    /// The number of `ws` whose keyword list names `id`.
    pub closed spec fn hits(&self, ws: Seq<Seq<char>>, id: Seq<char>) -> nat {
        hit_count(ws, self.by_keyword.map(), id)
    }

    /// Each keyword list names exactly the indexed files that have the
    /// keyword among their lowercased keywords.
    pub open spec fn keywords_agree(&self) -> bool {
        forall|k: Seq<char>, id: Seq<char>| #[trigger] self.keyword_ids(k).contains(id) <==>
            (self.entries().contains_key(id) && lowered(self.entries()[id].keywords).contains(k))
    }

    /// How the hit count unfolds: no words give no hits, and each further
    /// word adds one exactly when the keyword list under it names `id`.
    pub proof fn lemma_hits_unfold(&self, ws: Seq<Seq<char>>, id: Seq<char>)
        ensures
            ws.len() == 0 ==> self.hits(ws, id) == 0,
            ws.len() > 0 ==> self.hits(ws, id) == self.hits(ws.drop_last(), id)
                + if self.keyword_ids(ws.last()).contains(id) { 1nat } else { 0nat },
    {
    }

    /// Keys are distinct, lists hold each identifier once, and each entry
    /// is kept under its own identifier.
    pub closed spec fn wf(&self) -> bool {
        &&& self.by_id.wf()
        &&& self.by_owner.wf()
        &&& self.by_name.wf()
        &&& self.by_keyword.wf()
        &&& lists_distinct(self.by_owner.map())
        &&& lists_distinct(self.by_name.map())
        &&& lists_distinct(self.by_keyword.map())
        &&& forall|k: Seq<char>| #[trigger] self.by_id.map().contains_key(k) ==> self.by_id.map()[k].file_id@ == k
    }

    /// An empty index.
    pub fn new() -> (r: Self)
        ensures
            r.wf(),
            r.entries() == Map::<Seq<char>, EntryView>::empty(),
            forall|o: Seq<char>| #[trigger] r.owner_ids(o) == Set::<Seq<char>>::empty(),
            forall|n: Seq<char>| #[trigger] r.name_ids(n) == Set::<Seq<char>>::empty(),
            forall|k: Seq<char>| #[trigger] r.keyword_ids(k) == Set::<Seq<char>>::empty(),
    {
        let r = FileIndex { by_id: Table::new(), by_owner: Table::new(), by_name: Table::new(), by_keyword: Table::new() };
        assert(r.entries() =~= Map::<Seq<char>, EntryView>::empty());
        assert forall|o: Seq<char>| #[trigger] r.owner_ids(o) == Set::<Seq<char>>::empty() by {
            assert(r.owner_ids(o) =~= Set::<Seq<char>>::empty());
        }
        assert forall|n: Seq<char>| #[trigger] r.name_ids(n) == Set::<Seq<char>>::empty() by {
            assert(r.name_ids(n) =~= Set::<Seq<char>>::empty());
        }
        assert forall|k: Seq<char>| #[trigger] r.keyword_ids(k) == Set::<Seq<char>>::empty() by {
            assert(r.keyword_ids(k) =~= Set::<Seq<char>>::empty());
        }
        r
    }

    /// Index a file: kept under its identifier (replacing any entry
    /// there), and its identifier added under its owner, its lowercase
    /// name and each lowercase keyword.
    pub fn index(&mut self, entry: FileIndexEntry)
        requires
            old(self).wf(),
        ensures
            final(self).wf(),
            final(self).entries() == old(self).entries().insert(entry.file_id@, entry@),
            forall|o: Seq<char>| #[trigger] final(self).owner_ids(o)
                == if o == entry.owner@ { old(self).owner_ids(o).insert(entry.file_id@) } else { old(self).owner_ids(o) },
            forall|n: Seq<char>| #[trigger] final(self).name_ids(n)
                == if n == lowercase(entry.name@) { old(self).name_ids(n).insert(entry.file_id@) } else { old(self).name_ids(n) },
            forall|k: Seq<char>| #[trigger] final(self).keyword_ids(k)
                == if lowered(entry@.keywords).contains(k) { old(self).keyword_ids(k).insert(entry.file_id@) } else { old(self).keyword_ids(k) },
    {
        let file_id = entry.file_id.clone();
        let owner = entry.owner.clone();
        let name = to_lowercase(entry.name.as_str());
        let ghost ev = entry@;
        let keywords = clone_strings(&entry.keywords);
        let ghost e0 = self.entries();
        self.by_id.insert(file_id.clone(), entry);
        assert(self.entries() =~= e0.insert(ev.file_id, ev));
        add_id(&mut self.by_owner, owner, &file_id);
        add_id(&mut self.by_name, name, &file_id);
        let ghost k0 = self.by_keyword.map();
        let ghost kws = lowered(ev.keywords);
        let ghost id0 = self.by_id;
        let ghost owner0 = self.by_owner;
        let ghost name0 = self.by_name;
        let mut i: usize = 0;
        while i < keywords.len()
            invariant
                self.by_id == id0,
                self.by_owner == owner0,
                self.by_name == name0,
                i <= keywords@.len(),
                string_views(keywords@) == ev.keywords,
                kws == lowered(ev.keywords),
                file_id@ == ev.file_id,
                self.by_keyword.wf(),
                lists_distinct(self.by_keyword.map()),
                forall|k: Seq<char>| #[trigger] ids_under(self.by_keyword.map(), k)
                    == if kws.take(i as int).contains(k) { ids_under(k0, k).insert(ev.file_id) } else { ids_under(k0, k) },
            decreases keywords.len() - i,
        {
            let kw = to_lowercase(keywords[i].as_str());
            let ghost before = self.by_keyword.map();
            proof {
                assert(kw@ == kws[i as int]);
                assert forall|x: Seq<char>| kws.take(i + 1).contains(x) <==> (kws.take(i as int).contains(x) || x == kws[i as int]) by {
                    if kws.take(i + 1).contains(x) {
                        let t = choose|t: int| 0 <= t < i + 1 && #[trigger] kws.take(i + 1)[t] == x;
                        if t < i { assert(kws.take(i as int)[t] == x); }
                    }
                    if kws.take(i as int).contains(x) {
                        let t = choose|t: int| 0 <= t < i && #[trigger] kws.take(i as int)[t] == x;
                        assert(kws.take(i + 1)[t] == x);
                    }
                    if x == kws[i as int] { assert(kws.take(i + 1)[i as int] == x); }
                }
            }
            add_id(&mut self.by_keyword, kw, &file_id);
            proof {
                assert forall|k: Seq<char>| #[trigger] ids_under(self.by_keyword.map(), k)
                    == if kws.take(i + 1).contains(k) { ids_under(k0, k).insert(ev.file_id) } else { ids_under(k0, k) } by {
                    if k == kws[i as int] {
                        assert(ids_under(self.by_keyword.map(), k) == ids_under(before, k).insert(ev.file_id));
                        if kws.take(i as int).contains(k) {
                            assert(ids_under(before, k).insert(ev.file_id) =~= ids_under(k0, k).insert(ev.file_id).insert(ev.file_id));
                        }
                    }
                }
            }
            i = i + 1;
        }
        assert(kws.take(kws.len() as int) =~= kws);
    }

    /// Take a file out of the index: its entry, and its identifier from
    /// under its owner, its lowercase name and each lowercase keyword. An
    /// unknown identifier changes nothing.
    pub fn remove(&mut self, file_id: &str)
        requires
            old(self).wf(),
        ensures
            final(self).wf(),
            !old(self).entries().contains_key(file_id@) ==> final(self).entries() == old(self).entries()
                && (forall|o: Seq<char>| #[trigger] final(self).owner_ids(o) == old(self).owner_ids(o))
                && (forall|n: Seq<char>| #[trigger] final(self).name_ids(n) == old(self).name_ids(n))
                && (forall|k: Seq<char>| #[trigger] final(self).keyword_ids(k) == old(self).keyword_ids(k)),
            old(self).entries().contains_key(file_id@) ==> ({
                let e = old(self).entries()[file_id@];
                &&& final(self).entries() == old(self).entries().remove(file_id@)
                &&& forall|o: Seq<char>| #[trigger] final(self).owner_ids(o)
                        == if o == e.owner { old(self).owner_ids(o).remove(file_id@) } else { old(self).owner_ids(o) }
                &&& forall|n: Seq<char>| #[trigger] final(self).name_ids(n)
                        == if n == lowercase(e.name) { old(self).name_ids(n).remove(file_id@) } else { old(self).name_ids(n) }
                &&& forall|k: Seq<char>| #[trigger] final(self).keyword_ids(k)
                        == if lowered(e.keywords).contains(k) { old(self).keyword_ids(k).remove(file_id@) } else { old(self).keyword_ids(k) }
            }),
    {
        let key = file_id.to_string();
        let entry = match self.by_id.get(&key) {
            Some(e) => e.clone(),
            None => return,
        };
        let ghost ev = entry@;
        let ghost e0 = self.entries();
        let _ = self.by_id.remove(&key);
        assert(self.entries() =~= e0.remove(key@));
        remove_id(&mut self.by_owner, entry.owner.clone(), &key);
        remove_id(&mut self.by_name, to_lowercase(entry.name.as_str()), &key);
        let ghost k0 = self.by_keyword.map();
        let ghost kws = lowered(ev.keywords);
        let ghost id0 = self.by_id;
        let ghost owner0 = self.by_owner;
        let ghost name0 = self.by_name;
        let mut i: usize = 0;
        while i < entry.keywords.len()
            invariant
                self.by_id == id0,
                self.by_owner == owner0,
                self.by_name == name0,
                i <= entry.keywords@.len(),
                string_views(entry.keywords@) == ev.keywords,
                kws == lowered(ev.keywords),
                self.by_keyword.wf(),
                lists_distinct(self.by_keyword.map()),
                forall|k: Seq<char>| #[trigger] ids_under(self.by_keyword.map(), k)
                    == if kws.take(i as int).contains(k) { ids_under(k0, k).remove(key@) } else { ids_under(k0, k) },
            decreases entry.keywords.len() - i,
        {
            let kw = to_lowercase(entry.keywords[i].as_str());
            let ghost before = self.by_keyword.map();
            proof {
                assert(kw@ == kws[i as int]);
                assert forall|x: Seq<char>| kws.take(i + 1).contains(x) <==> (kws.take(i as int).contains(x) || x == kws[i as int]) by {
                    if kws.take(i + 1).contains(x) {
                        let t = choose|t: int| 0 <= t < i + 1 && #[trigger] kws.take(i + 1)[t] == x;
                        if t < i { assert(kws.take(i as int)[t] == x); }
                    }
                    if kws.take(i as int).contains(x) {
                        let t = choose|t: int| 0 <= t < i && #[trigger] kws.take(i as int)[t] == x;
                        assert(kws.take(i + 1)[t] == x);
                    }
                    if x == kws[i as int] { assert(kws.take(i + 1)[i as int] == x); }
                }
            }
            remove_id(&mut self.by_keyword, kw, &key);
            proof {
                assert forall|k: Seq<char>| #[trigger] ids_under(self.by_keyword.map(), k)
                    == if kws.take(i + 1).contains(k) { ids_under(k0, k).remove(key@) } else { ids_under(k0, k) } by {
                    if k == kws[i as int] {
                        assert(ids_under(self.by_keyword.map(), k) == ids_under(before, k).remove(key@));
                        if kws.take(i as int).contains(k) {
                            assert(ids_under(before, k).remove(key@) =~= ids_under(k0, k).remove(key@).remove(key@));
                        }
                    }
                }
            }
            i = i + 1;
        }
        assert(kws.take(kws.len() as int) =~= kws);
    }

    /// The entry of a file, if indexed.
    pub fn get(&self, file_id: &str) -> (r: Option<FileIndexEntry>)
        requires
            self.wf(),
        ensures
            r is Some <==> self.entries().contains_key(file_id@),
            r matches Some(e) ==> e@ == self.entries()[file_id@],
    {
        let key = file_id.to_string();
        match self.by_id.get(&key) {
            Some(e) => Some(e.clone()),
            None => None,
        }
    }

    /// The indexed entries whose identifiers are in `ids`, in that order.
    fn entries_for(&self, ids: &Vec<String>) -> (r: Vec<FileIndexEntry>)
        requires
            self.wf(),
            string_views(ids@).no_duplicates(),
        ensures
            forall|i: int| 0 <= i < r@.len() ==> {
                &&& self.entries().contains_key((#[trigger] r@[i]).file_id@)
                &&& r@[i]@ == self.entries()[r@[i].file_id@]
                &&& string_views(ids@).contains(r@[i].file_id@)
            },
            forall|id: Seq<char>| string_views(ids@).contains(id) && self.entries().contains_key(id) ==>
                exists|i: int| 0 <= i < r@.len() && (#[trigger] r@[i]).file_id@ == id,
            forall|a: int, b: int| 0 <= a < r@.len() && 0 <= b < r@.len() && a != b ==>
                (#[trigger] r@[a]).file_id@ != (#[trigger] r@[b]).file_id@,
    {
        let ghost sv = string_views(ids@);
        let mut r: Vec<FileIndexEntry> = Vec::new();
        let mut j: usize = 0;
        while j < ids.len()
            invariant
                self.wf(),
                j <= ids@.len(),
                sv == string_views(ids@),
                sv.no_duplicates(),
                forall|i: int| 0 <= i < r@.len() ==> {
                    &&& self.entries().contains_key((#[trigger] r@[i]).file_id@)
                    &&& r@[i]@ == self.entries()[r@[i].file_id@]
                    &&& sv.take(j as int).contains(r@[i].file_id@)
                },
                forall|t: int| 0 <= t < j && self.entries().contains_key(sv[t]) ==>
                    exists|i: int| 0 <= i < r@.len() && (#[trigger] r@[i]).file_id@ == sv[t],
                forall|a: int, b: int| 0 <= a < r@.len() && 0 <= b < r@.len() && a != b ==>
                    (#[trigger] r@[a]).file_id@ != (#[trigger] r@[b]).file_id@,
            decreases ids.len() - j,
        {
            let ghost prev = r@;
            proof {
                assert forall|x: Seq<char>| sv.take(j as int).contains(x) implies sv.take(j + 1).contains(x) by {
                    let t = choose|t: int| 0 <= t < j && #[trigger] sv.take(j as int)[t] == x;
                    assert(sv.take(j + 1)[t] == x);
                }
                assert(sv.take(j + 1)[j as int] == sv[j as int]);
                assert(!sv.take(j as int).contains(sv[j as int])) by {
                    if sv.take(j as int).contains(sv[j as int]) {
                        let t = choose|t: int| 0 <= t < j && #[trigger] sv.take(j as int)[t] == sv[j as int];
                        assert(sv[t] == sv[j as int]);
                    }
                }
            }
            match self.by_id.get(&ids[j]) {
                Some(e) => {
                    let c = e.clone();
                    r.push(c);
                    proof {
                        assert(r@[prev.len() as int].file_id@ == sv[j as int]);
                        assert forall|a: int, b: int| 0 <= a < r@.len() && 0 <= b < r@.len() && a != b implies
                            (#[trigger] r@[a]).file_id@ != (#[trigger] r@[b]).file_id@ by {
                            if b == prev.len() {
                                assert(r@[a] == prev[a]);
                                assert(sv.take(j as int).contains(prev[a].file_id@));
                            } else if a == prev.len() {
                                assert(r@[b] == prev[b]);
                                assert(sv.take(j as int).contains(prev[b].file_id@));
                            } else {
                                assert(r@[a] == prev[a] && r@[b] == prev[b]);
                            }
                        }
                        assert forall|t: int| 0 <= t < j + 1 && self.entries().contains_key(sv[t]) implies
                            exists|i: int| 0 <= i < r@.len() && (#[trigger] r@[i]).file_id@ == sv[t] by {
                            if t < j {
                                let i = choose|i: int| 0 <= i < prev.len() && (#[trigger] prev[i]).file_id@ == sv[t];
                                assert(r@[i] == prev[i]);
                            } else {
                                assert(r@[prev.len() as int].file_id@ == sv[t]);
                            }
                        }
                        assert forall|i: int| 0 <= i < r@.len() implies {
                            &&& self.entries().contains_key((#[trigger] r@[i]).file_id@)
                            &&& r@[i]@ == self.entries()[r@[i].file_id@]
                            &&& sv.take(j + 1).contains(r@[i].file_id@)
                        } by {
                            if i < prev.len() {
                                assert(r@[i] == prev[i]);
                            }
                        }
                    }
                },
                None => {
                    proof {
                        assert forall|t: int| 0 <= t < j + 1 && self.entries().contains_key(sv[t]) implies
                            exists|i: int| 0 <= i < r@.len() && (#[trigger] r@[i]).file_id@ == sv[t] by {
                        }
                    }
                },
            }
            j = j + 1;
        }
        proof {
            assert(sv.take(sv.len() as int) =~= sv);
            assert forall|id: Seq<char>| sv.contains(id) && self.entries().contains_key(id) implies
                exists|i: int| 0 <= i < r@.len() && (#[trigger] r@[i]).file_id@ == id by {
                let t = choose|t: int| 0 <= t < sv.len() && sv[t] == id;
            }
        }
        r
    }

    /// The indexed entries listed under `owner`, each once.
    pub fn list_by_owner(&self, owner: &str) -> (r: Vec<FileIndexEntry>)
        requires
            self.wf(),
        ensures
            forall|i: int| 0 <= i < r@.len() ==> {
                &&& self.entries().contains_key((#[trigger] r@[i]).file_id@)
                &&& r@[i]@ == self.entries()[r@[i].file_id@]
                &&& self.owner_ids(owner@).contains(r@[i].file_id@)
            },
            forall|id: Seq<char>| self.owner_ids(owner@).contains(id) && self.entries().contains_key(id) ==>
                exists|i: int| 0 <= i < r@.len() && (#[trigger] r@[i]).file_id@ == id,
            forall|a: int, b: int| 0 <= a < r@.len() && 0 <= b < r@.len() && a != b ==>
                (#[trigger] r@[a]).file_id@ != (#[trigger] r@[b]).file_id@,
    {
        let key = owner.to_string();
        match self.by_owner.get(&key) {
            Some(ids) => self.entries_for(ids),
            None => {
                let empty: Vec<String> = Vec::new();
                assert(string_views(empty@) =~= Seq::<Seq<char>>::empty());
                self.entries_for(&empty)
            },
        }
    }

    /// The indexed entries listed under the lowercase form of `name`, each
    /// once.
    pub fn search_by_name(&self, name: &str) -> (r: Vec<FileIndexEntry>)
        requires
            self.wf(),
        ensures
            forall|i: int| 0 <= i < r@.len() ==> {
                &&& self.entries().contains_key((#[trigger] r@[i]).file_id@)
                &&& r@[i]@ == self.entries()[r@[i].file_id@]
                &&& self.name_ids(lowercase(name@)).contains(r@[i].file_id@)
            },
            forall|id: Seq<char>| self.name_ids(lowercase(name@)).contains(id) && self.entries().contains_key(id) ==>
                exists|i: int| 0 <= i < r@.len() && (#[trigger] r@[i]).file_id@ == id,
            forall|a: int, b: int| 0 <= a < r@.len() && 0 <= b < r@.len() && a != b ==>
                (#[trigger] r@[a]).file_id@ != (#[trigger] r@[b]).file_id@,
    {
        let key = to_lowercase(name);
        match self.by_name.get(&key) {
            Some(ids) => self.entries_for(ids),
            None => {
                let empty: Vec<String> = Vec::new();
                assert(string_views(empty@) =~= Seq::<Seq<char>>::empty());
                self.entries_for(&empty)
            },
        }
    }

    /// Whether the keyword list under `word` names `id`.
    fn keyword_lists(&self, word: &String, id: &String) -> (r: bool)
        requires
            self.wf(),
        ensures
            r == self.keyword_ids(word@).contains(id@),
    {
        match self.by_keyword.get(word) {
            Some(ids) => find_text(ids, id.as_str()).is_some(),
            None => false,
        }
    }

    /// Search by keyword: the query is lowercased and cut into words; each
    /// indexed file whose keyword lists take in at least one of the words is
    /// a hit, counted once per word (repeated words count again). Hits come
    /// in indexing order.
    pub fn search(&self, query: &str) -> (r: Vec<SearchHit>)
        requires
            self.wf(),
        ensures
            forall|i: int| 0 <= i < r@.len() ==> {
                &&& self.entries().contains_key((#[trigger] r@[i]).file_id@)
                &&& r@[i].name@ == self.entries()[r@[i].file_id@].name
                &&& r@[i].hits == self.hits(words(lowercase(query@)), r@[i].file_id@)
                &&& r@[i].hits > 0
            },
            forall|id: Seq<char>| self.entries().contains_key(id) && self.hits(words(lowercase(query@)), id) > 0 ==>
                exists|i: int| 0 <= i < r@.len() && (#[trigger] r@[i]).file_id@ == id,
            forall|a: int, b: int| 0 <= a < r@.len() && 0 <= b < r@.len() && a != b ==>
                (#[trigger] r@[a]).file_id@ != (#[trigger] r@[b]).file_id@,
    {
        let lowered_query = to_lowercase(query);
        let ws = split_whitespace(lowered_query.as_str());
        let ghost qw = string_views(ws@);
        let ghost keys = self.by_id.keys();
        let mut r: Vec<SearchHit> = Vec::new();
        let mut j: usize = 0;
        while j < self.by_id.len()
            invariant
                self.wf(),
                qw == string_views(ws@),
                qw == words(lowercase(query@)),
                keys == self.by_id.keys(),
                j <= keys.len(),
                forall|i: int| 0 <= i < r@.len() ==> {
                    &&& self.entries().contains_key((#[trigger] r@[i]).file_id@)
                    &&& r@[i].name@ == self.entries()[r@[i].file_id@].name
                    &&& r@[i].hits == self.hits(qw, r@[i].file_id@)
                    &&& r@[i].hits > 0
                    &&& keys.take(j as int).contains(r@[i].file_id@)
                },
                forall|t: int| 0 <= t < j && self.hits(qw, keys[t]) > 0 ==>
                    exists|i: int| 0 <= i < r@.len() && (#[trigger] r@[i]).file_id@ == keys[t],
                forall|a: int, b: int| 0 <= a < r@.len() && 0 <= b < r@.len() && a != b ==>
                    (#[trigger] r@[a]).file_id@ != (#[trigger] r@[b]).file_id@,
            decreases keys.len() - j,
        {
            let e = self.by_id.entry(j);
            let mut count: u64 = 0;
            let mut w: usize = 0;
            while w < ws.len()
                invariant
                    self.wf(),
                    w <= ws@.len(),
                    qw == string_views(ws@),
                    count == self.hits(qw.take(w as int), e.0@),
                    count <= w,
                decreases ws.len() - w,
            {
                proof {
                    assert(qw.take(w + 1).drop_last() =~= qw.take(w as int));
                    assert(qw.take(w + 1).last() == ws@[w as int]@);
                }
                if self.keyword_lists(&ws[w], &e.0) {
                    count = count + 1;
                }
                w = w + 1;
            }
            assert(qw.take(qw.len() as int) =~= qw);
            let ghost prev = r@;
            proof {
                assert(keys[j as int] == e.0@);
                assert(self.by_id.map().contains_key(e.0@));
                assert forall|x: Seq<char>| keys.take(j as int).contains(x) implies keys.take(j + 1).contains(x) by {
                    let t = choose|t: int| 0 <= t < j && #[trigger] keys.take(j as int)[t] == x;
                    assert(keys.take(j + 1)[t] == x);
                }
                assert(keys.take(j + 1)[j as int] == e.0@);
                assert(!keys.take(j as int).contains(e.0@)) by {
                    if keys.take(j as int).contains(e.0@) {
                        let t = choose|t: int| 0 <= t < j && #[trigger] keys.take(j as int)[t] == e.0@;
                        assert(keys[t] == keys[j as int]);
                    }
                }
                crate::table::lemma_index_unique(keys, e.0@, j as int);
            }
            if count > 0 {
                r.push(SearchHit { file_id: e.0.clone(), name: e.1.name.clone(), hits: count });
                proof {
                    assert forall|a: int, b: int| 0 <= a < r@.len() && 0 <= b < r@.len() && a != b implies
                        (#[trigger] r@[a]).file_id@ != (#[trigger] r@[b]).file_id@ by {
                        if b == prev.len() {
                            assert(r@[a] == prev[a]);
                        } else if a == prev.len() {
                            assert(r@[b] == prev[b]);
                        } else {
                            assert(r@[a] == prev[a] && r@[b] == prev[b]);
                        }
                    }
                    assert forall|t: int| 0 <= t < j + 1 && self.hits(qw, keys[t]) > 0 implies
                        exists|i: int| 0 <= i < r@.len() && (#[trigger] r@[i]).file_id@ == keys[t] by {
                        if t < j {
                            let i = choose|i: int| 0 <= i < prev.len() && (#[trigger] prev[i]).file_id@ == keys[t];
                            assert(r@[i] == prev[i]);
                        } else {
                            assert(r@[prev.len() as int].file_id@ == keys[t]);
                        }
                    }
                    assert forall|i: int| 0 <= i < r@.len() implies {
                        &&& self.entries().contains_key((#[trigger] r@[i]).file_id@)
                        &&& r@[i].name@ == self.entries()[r@[i].file_id@].name
                        &&& r@[i].hits == self.hits(qw, r@[i].file_id@)
                        &&& r@[i].hits > 0
                        &&& keys.take(j + 1).contains(r@[i].file_id@)
                    } by {
                        if i < prev.len() {
                            assert(r@[i] == prev[i]);
                        }
                    }
                }
            }
            j = j + 1;
        }
        proof {
            assert(keys.take(keys.len() as int) =~= keys);
            assert forall|id: Seq<char>| self.entries().contains_key(id) && self.hits(qw, id) > 0 implies
                exists|i: int| 0 <= i < r@.len() && (#[trigger] r@[i]).file_id@ == id by {
                let t = choose|t: int| 0 <= t < keys.len() && keys[t] == id;
            }
        }
        r
    }
}

/// How many of the words `ws` are among `kws`, counting repeated words
/// each time.
pub open spec fn matching_words(ws: Seq<Seq<char>>, kws: Seq<Seq<char>>) -> nat
    decreases ws.len(),
{
    if ws.len() == 0 {
        0
    } else {
        matching_words(ws.drop_last(), kws) + (if kws.contains(ws.last()) { 1nat } else { 0nat })
    }
}

/// An empty index's keyword lists agree with its (absent) entries.
pub proof fn law_new_index_keywords_agree(ix: FileIndex)
    requires
        ix.entries() == Map::<Seq<char>, EntryView>::empty(),
        forall|k: Seq<char>| #[trigger] ix.keyword_ids(k) == Set::<Seq<char>>::empty(),
    ensures
        ix.keywords_agree(),
{
}

/// Indexing a file under a fresh identifier, with the changes `index`
/// states, keeps the keyword lists in agreement with the entries.
pub proof fn law_index_keeps_keywords_agree(a: FileIndex, b: FileIndex, e: EntryView)
    requires
        a.keywords_agree(),
        !a.entries().contains_key(e.file_id),
        b.entries() == a.entries().insert(e.file_id, e),
        forall|k: Seq<char>| #[trigger] b.keyword_ids(k)
            == if lowered(e.keywords).contains(k) { a.keyword_ids(k).insert(e.file_id) } else { a.keyword_ids(k) },
    ensures
        b.keywords_agree(),
{
    assert forall|k: Seq<char>, id: Seq<char>| #[trigger] b.keyword_ids(k).contains(id) <==>
        (b.entries().contains_key(id) && lowered(b.entries()[id].keywords).contains(k)) by {
        assert(a.keyword_ids(k).contains(id) <==>
            (a.entries().contains_key(id) && lowered(a.entries()[id].keywords).contains(k)));
        assert(a.keyword_ids(k).contains(e.file_id) <==>
            (a.entries().contains_key(e.file_id) && lowered(a.entries()[e.file_id].keywords).contains(k)));
    }
}

/// Removing an indexed file, with the changes `remove` states, keeps the
/// keyword lists in agreement with the entries.
pub proof fn law_remove_keeps_keywords_agree(a: FileIndex, b: FileIndex, id0: Seq<char>)
    requires
        a.keywords_agree(),
        a.entries().contains_key(id0),
        b.entries() == a.entries().remove(id0),
        forall|k: Seq<char>| #[trigger] b.keyword_ids(k)
            == if lowered(a.entries()[id0].keywords).contains(k) { a.keyword_ids(k).remove(id0) } else { a.keyword_ids(k) },
    ensures
        b.keywords_agree(),
{
    assert forall|k: Seq<char>, id: Seq<char>| #[trigger] b.keyword_ids(k).contains(id) <==>
        (b.entries().contains_key(id) && lowered(b.entries()[id].keywords).contains(k)) by {
        assert(a.keyword_ids(k).contains(id) <==>
            (a.entries().contains_key(id) && lowered(a.entries()[id].keywords).contains(k)));
    }
}

/// Search relevance is the keyword match count: when the keyword lists
/// agree with the entries, the hits of an indexed file for the words `ws`
/// are how many of the words are among its lowercased keywords.
pub proof fn law_hits_count_keyword_matches(ix: FileIndex, ws: Seq<Seq<char>>, id: Seq<char>)
    requires
        ix.keywords_agree(),
        ix.entries().contains_key(id),
    ensures
        ix.hits(ws, id) == matching_words(ws, lowered(ix.entries()[id].keywords)),
    decreases ws.len(),
{
    ix.lemma_hits_unfold(ws, id);
    if ws.len() > 0 {
        law_hits_count_keyword_matches(ix, ws.drop_last(), id);
        assert(ix.keyword_ids(ws.last()).contains(id) <==>
            (ix.entries().contains_key(id) && lowered(ix.entries()[id].keywords).contains(ws.last())));
    }
}

} // verus!
