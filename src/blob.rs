//! The blob store for free-text field values, keyed by account and field, with
//! lookups by owning account and by content hash.
use vstd::prelude::*;
use vstd::string::*;
use crate::digest::{content_hash, content_hash_of};
use crate::ledger::{now_secs, meta_view};
use crate::text::str_eq;

verus! {

/// One stored text value.
pub struct VarCharRecord {
    pub account_id: String,
    pub field_name: String,
    pub content: String,
    pub content_type: String,
    pub created_at: u64,
    pub updated_at: u64,
    pub metadata: Vec<(String, String)>,
    content_hash: i64,
}

/// A stored entry as (account, field, content).
pub type Entry = (Seq<char>, Seq<char>, Seq<char>);

/// The key under which a value is reported: `<account>:<field>`.
pub open spec fn key_of(account: Seq<char>, field: Seq<char>) -> Seq<char> {
    account + seq![':'] + field
}

pub open spec fn has_entry(s: Seq<Entry>, a: Seq<char>, f: Seq<char>) -> bool {
    exists|i: int| 0 <= i < s.len() && s[i].0 == a && s[i].1 == f
}

pub open spec fn entry_index(s: Seq<Entry>, a: Seq<char>, f: Seq<char>) -> int {
    choose|i: int| 0 <= i < s.len() && s[i].0 == a && s[i].1 == f
}

/// No two entries share an account and a field.
pub open spec fn pairs_unique(s: Seq<Entry>) -> bool {
    forall|i: int, j: int| 0 <= i < j < s.len() ==> !(s[i].0 == s[j].0 && s[i].1 == s[j].1)
}

/// The content stored for an account and field, if any.
pub open spec fn model_get(s: Seq<Entry>, a: Seq<char>, f: Seq<char>) -> Option<Seq<char>> {
    if has_entry(s, a, f) { Some(s[entry_index(s, a, f)].2) } else { None }
}

/// Storing a content: replaces the entry in place, or appends a new one.
pub open spec fn model_put(s: Seq<Entry>, a: Seq<char>, f: Seq<char>, c: Seq<char>) -> Seq<Entry> {
    if has_entry(s, a, f) { s.update(entry_index(s, a, f), (a, f, c)) } else { s.push((a, f, c)) }
}

/// Deleting an entry, when there is one.
pub open spec fn model_delete(s: Seq<Entry>, a: Seq<char>, f: Seq<char>) -> Seq<Entry> {
    if has_entry(s, a, f) { s.remove(entry_index(s, a, f)) } else { s }
}

/// The keys of the entries whose content hash is `h`, in storage order.
pub open spec fn keys_with_hash(s: Seq<Entry>, h: int) -> Seq<Seq<char>>
    decreases s.len(),
{
    if s.len() == 0 {
        Seq::empty()
    } else {
        keys_with_hash(s.drop_last(), h) + if content_hash_of(s.last().2) == h {
            seq![key_of(s.last().0, s.last().1)]
        } else {
            Seq::empty()
        }
    }
}

/// The (field, content) pairs of an account, in storage order.
pub open spec fn fields_of(s: Seq<Entry>, a: Seq<char>) -> Seq<(Seq<char>, Seq<char>)>
    decreases s.len(),
{
    if s.len() == 0 {
        Seq::empty()
    } else {
        fields_of(s.drop_last(), a) + if s.last().0 == a {
            seq![(s.last().1, s.last().2)]
        } else {
            Seq::empty()
        }
    }
}

/// The text store.
pub struct SledVarCharStore {
    records: Vec<VarCharRecord>,
}

impl SledVarCharStore {
    /// The stored entries, in storage order.
    pub closed spec fn entries(&self) -> Seq<Entry> {
        self.records@.map_values(|r: VarCharRecord| (r.account_id@, r.field_name@, r.content@))
    }

    pub closed spec fn wf(&self) -> bool {
        &&& pairs_unique(self.entries())
        &&& forall|i: int| 0 <= i < self.records@.len() ==> #[trigger] self.records@[i].content_hash
            == content_hash_of(self.records@[i].content@)
    }

    /// No two stored entries share an account and a field.
    pub proof fn lemma_pairs_unique(&self)
        requires
            self.wf(),
        ensures
            pairs_unique(self.entries()),
    {
    }

    /// An empty store.
    pub fn new() -> (r: SledVarCharStore)
        ensures
            r.wf(),
            r.entries() == Seq::<Entry>::empty(),
    {
        let r = SledVarCharStore { records: Vec::new() };
        assert(r.entries() =~= Seq::<Entry>::empty());
        r
    }

    fn find(&self, account: &str, field: &str) -> (r: Option<usize>)
        requires
            self.wf(),
        ensures
            match r {
                Some(i) => has_entry(self.entries(), account@, field@) && i == entry_index(self.entries(), account@, field@)
                    && i < self.records@.len(),
                None => !has_entry(self.entries(), account@, field@),
            },
    {
        let ghost s = self.entries();
        let mut i: usize = 0;
        while i < self.records.len()
            invariant
                s == self.entries(),
                pairs_unique(s),
                i <= s.len(),
                forall|j: int| 0 <= j < i ==> !(s[j].0 == account@ && s[j].1 == field@),
            decreases s.len() - i,
        {
            if str_eq(self.records[i].account_id.as_str(), account) && str_eq(
                self.records[i].field_name.as_str(),
                field,
            ) {
                proof {
                    assert(s[i as int].0 == account@ && s[i as int].1 == field@);
                    let c = entry_index(s, account@, field@);
                    assert(c == i);
                }
                return Some(i);
            }
            i = i + 1;
        }
        None
    }

    /// Stores a text under an account and field, replacing what was there;
    /// returns its key `<account>:<field>`.
    pub fn store_varchar(&mut self, account_id: &str, field_name: &str, content: &str, content_type: &str, metadata: Vec<(String, String)>) -> (r: String)
        requires
            old(self).wf(),
        ensures
            final(self).wf(),
            final(self).entries() == model_put(old(self).entries(), account_id@, field_name@, content@),
            r@ == key_of(account_id@, field_name@),
    {
        let now = now_secs();
        let rec = VarCharRecord {
            account_id: String::from_str(account_id),
            field_name: String::from_str(field_name),
            content: String::from_str(content),
            content_type: String::from_str(content_type),
            created_at: now,
            updated_at: now,
            metadata,
            content_hash: content_hash(content),
        };
        let ghost s = self.entries();
        match self.find(account_id, field_name) {
            Some(i) => {
                self.records.set(i, rec);
                proof {
                    assert(self.entries() =~= s.update(i as int, (account_id@, field_name@, content@)));
                }
            },
            None => {
                self.records.push(rec);
                proof {
                    assert(self.entries() =~= s.push((account_id@, field_name@, content@)));
                }
            },
        }
        let mut key = String::from_str(account_id);
        proof { reveal_strlit(":"); }
        key.append(":");
        key.append(field_name);
        assert(key@ =~= key_of(account_id@, field_name@));
        key
    }

    /// The text stored under an account and field, if any.
    pub fn get_varchar(&self, account_id: &str, field_name: &str) -> (r: Option<String>)
        requires
            self.wf(),
        ensures
            match r {
                Some(c) => model_get(self.entries(), account_id@, field_name@) == Some(c@),
                None => model_get(self.entries(), account_id@, field_name@) is None,
            },
    {
        match self.find(account_id, field_name) {
            Some(i) => Some(self.records[i].content.clone()),
            None => None,
        }
    }

    /// Every (field, text) stored under an account, in storage order.
    pub fn get_account_varchars(&self, account_id: &str) -> (r: Vec<(String, String)>)
        ensures
            meta_view(r@) == fields_of(self.entries(), account_id@),
    {
        let ghost s = self.entries();
        let mut out: Vec<(String, String)> = Vec::new();
        let mut i: usize = 0;
        proof {
            assert(s.take(0) =~= Seq::<Entry>::empty());
        }
        while i < self.records.len()
            invariant
                s == self.entries(),
                i <= s.len(),
                meta_view(out@) == fields_of(s.take(i as int), account_id@),
            decreases s.len() - i,
        {
            proof {
                assert(s.take(i + 1).drop_last() =~= s.take(i as int));
            }
            if str_eq(self.records[i].account_id.as_str(), account_id) {
                out.push((self.records[i].field_name.clone(), self.records[i].content.clone()));
            }
            proof {
                assert(meta_view(out@) =~= fields_of(s.take(i + 1), account_id@));
            }
            i = i + 1;
        }
        proof {
            assert(s.take(s.len() as int) =~= s);
        }
        out
    }

    /// Replaces the text of an account and field, keeping its type and creation
    /// time; creates it, with type `text`, when absent.
    pub fn update_varchar(&mut self, account_id: &str, field_name: &str, new_content: &str)
        requires
            old(self).wf(),
        ensures
            final(self).wf(),
            final(self).entries() == model_put(old(self).entries(), account_id@, field_name@, new_content@),
    {
        match self.find(account_id, field_name) {
            Some(i) => {
                let ghost s = self.entries();
                let old_rec = &self.records[i];
                let rec = VarCharRecord {
                    account_id: old_rec.account_id.clone(),
                    field_name: old_rec.field_name.clone(),
                    content: String::from_str(new_content),
                    content_type: old_rec.content_type.clone(),
                    created_at: old_rec.created_at,
                    updated_at: now_secs(),
                    metadata: Vec::new(),
                    content_hash: content_hash(new_content),
                };
                self.records.set(i, rec);
                proof {
                    assert(self.entries() =~= s.update(i as int, (account_id@, field_name@, new_content@)));
                }
            },
            None => {
                proof { reveal_strlit("text"); }
                let _ = self.store_varchar(account_id, field_name, new_content, "text", Vec::new());
            },
        }
    }

    /// Deletes the text of an account and field; returns whether there was one.
    pub fn delete_varchar(&mut self, account_id: &str, field_name: &str) -> (r: bool)
        requires
            old(self).wf(),
        ensures
            final(self).wf(),
            r == has_entry(old(self).entries(), account_id@, field_name@),
            final(self).entries() == model_delete(old(self).entries(), account_id@, field_name@),
    {
        match self.find(account_id, field_name) {
            Some(i) => {
                let ghost s = self.entries();
                let _ = self.records.remove(i);
                proof {
                    assert(self.entries() =~= s.remove(i as int));
                }
                true
            },
            None => false,
        }
    }

    /// The keys of all stored texts whose content hash equals that of `content`,
    /// in storage order. Distinct texts may share a hash: callers compare the
    /// texts before treating them as duplicates.
    pub fn find_by_content_hash(&self, content: &str) -> (r: Vec<String>)
        requires
            self.wf(),
        ensures
            r@.map_values(|k: String| k@) == keys_with_hash(self.entries(), content_hash_of(content@)),
    {
        let h = content_hash(content);
        let ghost s = self.entries();
        let mut out: Vec<String> = Vec::new();
        let mut i: usize = 0;
        proof {
            assert(s.take(0) =~= Seq::<Entry>::empty());
            assert(out@.map_values(|k: String| k@) =~= Seq::<Seq<char>>::empty());
        }
        while i < self.records.len()
            invariant
                self.wf(),
                s == self.entries(),
                i <= s.len(),
                h == content_hash_of(content@),
                out@.map_values(|k: String| k@) == keys_with_hash(s.take(i as int), h as int),
            decreases s.len() - i,
        {
            proof {
                assert(s.take(i + 1).drop_last() =~= s.take(i as int));
            }
            let ghost before = out@;
            if self.records[i].content_hash == h {
                let mut key = self.records[i].account_id.clone();
                proof { reveal_strlit(":"); }
                key.append(":");
                key.append(self.records[i].field_name.as_str());
                assert(key@ =~= key_of(self.records@[i as int].account_id@, self.records@[i as int].field_name@));
                assert(s[i as int].0 == self.records@[i as int].account_id@);
                assert(s[i as int].1 == self.records@[i as int].field_name@);
                out.push(key);
                proof {
                    assert(out@.map_values(|k: String| k@) =~= before.map_values(|k: String| k@).push(
                        key_of(s[i as int].0, s[i as int].1),
                    ));
                }
            }
            proof {
                assert(out@.map_values(|k: String| k@) =~= keys_with_hash(s.take(i + 1), h as int));
            }
            i = i + 1;
        }
        proof {
            assert(s.take(s.len() as int) =~= s);
        }
        out
    }

    /// Number of stored texts.
    pub fn total_records(&self) -> (r: usize)
        ensures
            r == self.entries().len(),
    {
        self.records.len()
    }
}

proof fn lemma_key_in_bucket(s: Seq<Entry>, i: int)
    requires
        0 <= i < s.len(),
    ensures
        keys_with_hash(s, content_hash_of(s[i].2)).contains(key_of(s[i].0, s[i].1)),
    decreases s.len(),
{
    let h = content_hash_of(s[i].2);
    if i == s.len() - 1 {
        let k = key_of(s[i].0, s[i].1);
        let pre = keys_with_hash(s.drop_last(), h);
        assert((pre + seq![k])[pre.len() as int] == k);
    } else {
        lemma_key_in_bucket(s.drop_last(), i);
        let pre = keys_with_hash(s.drop_last(), h);
        let k = key_of(s[i].0, s[i].1);
        let j = choose|j: int| 0 <= j < pre.len() && pre[j] == k;
        assert(keys_with_hash(s, h)[j] == k);
    }
}

/// Round trip of the text store: a stored text reads back unchanged; a deleted
/// one reads back absent; one text stored under two accounts gives two keys in
/// the one content-hash bucket.
pub proof fn lemma_blob_round_trip(s: Seq<Entry>, a: Seq<char>, f: Seq<char>, c: Seq<char>, a2: Seq<char>)
    requires
        pairs_unique(s),
        a != a2,
    ensures
        model_get(model_put(s, a, f, c), a, f) == Some(c),
        model_get(model_delete(model_put(s, a, f, c), a, f), a, f) is None,
        keys_with_hash(model_put(model_put(s, a, f, c), a2, f, c), content_hash_of(c)).contains(key_of(a, f)),
        keys_with_hash(model_put(model_put(s, a, f, c), a2, f, c), content_hash_of(c)).contains(key_of(a2, f)),
{
    let s1 = model_put(s, a, f, c);
    lemma_put_keeps_unique(s, a, f, c);
    assert(has_entry(s1, a, f)) by {
        if has_entry(s, a, f) {
            assert(s1[entry_index(s, a, f)].0 == a);
        } else {
            assert(s1[s.len() as int].0 == a);
        }
    }
    assert(model_get(s1, a, f) == Some(c));
    let d = model_delete(s1, a, f);
    assert(!has_entry(d, a, f)) by {
        let k = entry_index(s1, a, f);
        if has_entry(d, a, f) {
            let j = choose|j: int| 0 <= j < d.len() && d[j].0 == a && d[j].1 == f;
            if j < k {
                assert(d[j] == s1[j]);
            } else {
                assert(d[j] == s1[j + 1]);
            }
        }
    }
    let s2 = model_put(s1, a2, f, c);
    lemma_put_keeps_unique(s1, a2, f, c);
    let i1 = entry_index(s1, a, f);
    let i2 = if has_entry(s1, a2, f) { entry_index(s1, a2, f) } else { s1.len() as int };
    assert(s2[i2] == (a2, f, c));
    assert(s2[i1] == (a, f, c));
    lemma_key_in_bucket(s2, i1);
    lemma_key_in_bucket(s2, i2);
}

proof fn lemma_put_keeps_unique(s: Seq<Entry>, a: Seq<char>, f: Seq<char>, c: Seq<char>)
    requires
        pairs_unique(s),
    ensures
        pairs_unique(model_put(s, a, f, c)),
        model_get(model_put(s, a, f, c), a, f) == Some(c),
{
    let s1 = model_put(s, a, f, c);
    if has_entry(s, a, f) {
        let k = entry_index(s, a, f);
        assert(s1[k].0 == a && s1[k].1 == f);
        assert(has_entry(s1, a, f));
        assert(entry_index(s1, a, f) == k);
    } else {
        assert(s1[s.len() as int].0 == a && s1[s.len() as int].1 == f);
        assert(has_entry(s1, a, f));
        assert(entry_index(s1, a, f) == s.len());
    }
}

} // verus!
