//! The state `grf` keeps: the cached repositories (`config`) and the references
//! loaded into workspaces (`loading`).
//!
//! Paths are UTF-8 strings; timestamps are Unix times in nanoseconds (UTC).
use vstd::prelude::*;

use crate::text::{chars_of, owned};

verus! {

pub const STATE_VERSION: &'static str = "2.0.0";

/// Settings used when a repository is cloned on the way to being loaded.
#[derive(Debug, Clone)]
pub struct ConfigDefaults {
    pub default_branch: String,
    pub shallow_clone: bool,
    pub shallow_depth: u32,
}

impl Default for ConfigDefaults {
    fn default() -> (d: Self)
        ensures
            d.default_branch@ == "main"@,
            d.shallow_clone,
            d.shallow_depth == 1,
    {
        ConfigDefaults { default_branch: owned("main"), shallow_clone: true, shallow_depth: 1 }
    }
}

/// A repository in the cache.
#[derive(Debug, Clone)]
pub struct RepoRecord {
    pub name: String,
    pub url: String,
    pub path: String,
    pub added_at: i128,
    pub updated_at: i128,
    pub commit_id: String,
    pub branch: Option<String>,
}

pub struct RepoRecordView {
    pub name: Seq<char>,
    pub url: Seq<char>,
    pub path: Seq<char>,
    pub added_at: i128,
    pub updated_at: i128,
    pub commit_id: Seq<char>,
    pub branch: Option<Seq<char>>,
}

impl View for RepoRecord {
    type V = RepoRecordView;

    open spec fn view(&self) -> RepoRecordView {
        RepoRecordView {
            name: self.name@,
            url: self.url@,
            path: self.path@,
            added_at: self.added_at,
            updated_at: self.updated_at,
            commit_id: self.commit_id@,
            branch: self.branch.deep_view(),
        }
    }
}

/// A copy of an optional string.
pub fn clone_opt(o: &Option<String>) -> (r: Option<String>)
    ensures
        r.deep_view() == o.deep_view(),
{
    match o {
        Some(s) => Some(s.clone()),
        None => None,
    }
}

impl RepoRecord {
    /// A copy of the record.
    pub fn duplicate(&self) -> (r: Self)
        ensures
            r@ == self@,
    {
        RepoRecord {
            name: self.name.clone(),
            url: self.url.clone(),
            path: self.path.clone(),
            added_at: self.added_at,
            updated_at: self.updated_at,
            commit_id: self.commit_id.clone(),
            branch: clone_opt(&self.branch),
        }
    }
}

// ---------------------------------------------------------------------------
// The repository table: records kept in key order, as `BTreeMap<String, _>` keeps them
// ---------------------------------------------------------------------------

/// `String`'s order: lexicographic by character (the order of their UTF-8 bytes).
pub open spec fn key_lt(a: Seq<char>, b: Seq<char>) -> bool
    decreases a.len(),
{
    if a.len() == 0 {
        b.len() > 0
    } else if b.len() == 0 {
        false
    } else if a[0] < b[0] {
        true
    } else if a[0] > b[0] {
        false
    } else {
        key_lt(a.drop_first(), b.drop_first())
    }
}

pub type TableView = Seq<(Seq<char>, RepoRecordView)>;

/// Keys strictly increasing, hence each key once.
pub open spec fn sorted_keys(t: TableView) -> bool {
    forall|i: int, j: int| 0 <= i < j < t.len() ==> key_lt(#[trigger] t[i].0, #[trigger] t[j].0)
}

/// The index of the entry under `k`.
pub open spec fn index_of_key(t: TableView, k: Seq<char>) -> Option<int>
    decreases t.len(),
{
    if t.len() == 0 {
        None
    } else if t[0].0 == k {
        Some(0)
    } else {
        match index_of_key(t.drop_first(), k) {
            Some(i) => Some(i + 1),
            None => None,
        }
    }
}

/// The record under `k`.
pub open spec fn table_get(t: TableView, k: Seq<char>) -> Option<RepoRecordView> {
    match index_of_key(t, k) {
        Some(i) => Some(t[i].1),
        None => None,
    }
}

/// Where `k` belongs: the first entry whose key is not below `k`.
pub open spec fn insert_pos(t: TableView, k: Seq<char>) -> int
    decreases t.len(),
{
    if t.len() == 0 || !key_lt(t[0].0, k) {
        0
    } else {
        insert_pos(t.drop_first(), k) + 1
    }
}

/// The table once `v` is stored under `k`: the entry under `k` replaced, or a new
/// entry put in key order.
pub open spec fn table_insert(t: TableView, k: Seq<char>, v: RepoRecordView) -> TableView {
    let p = insert_pos(t, k);
    if p < t.len() && t[p].0 == k {
        t.update(p, (k, v))
    } else {
        t.insert(p, (k, v))
    }
}

/// The table without the entry under `k`.
pub open spec fn table_remove(t: TableView, k: Seq<char>) -> TableView {
    match index_of_key(t, k) {
        Some(i) => t.remove(i),
        None => t,
    }
}

pub open spec fn entry_view(e: (String, RepoRecord)) -> (Seq<char>, RepoRecordView) {
    (e.0@, e.1@)
}

/// The repositories, as a map from key to record kept in key order.
#[derive(Debug)]
pub struct RepoTable {
    entries: Vec<(String, RepoRecord)>,
}

impl View for RepoTable {
    type V = TableView;

    closed spec fn view(&self) -> TableView {
        table_of(self.entries@)
    }
}

impl RepoTable {
    /// The keys are kept in order, so each occurs once.
    #[verifier::type_invariant]
    spec fn keys_in_order(self) -> bool {
        sorted_keys(self@)
    }

    /// An empty table.
    pub fn new() -> (t: Self)
        ensures
            t@ == Seq::<(Seq<char>, RepoRecordView)>::empty(),
    {
        let t = RepoTable { entries: Vec::new() };
        assert(t@ =~= Seq::<(Seq<char>, RepoRecordView)>::empty());
        t
    }

    pub fn len(&self) -> (n: usize)
        ensures
            n == self@.len(),
    {
        self.entries.len()
    }

    pub fn is_empty(&self) -> (b: bool)
        ensures
            b == (self@.len() == 0),
    {
        self.entries.len() == 0
    }

    /// The key of entry `i`.
    pub fn key_at(&self, i: usize) -> (k: &String)
        requires
            i < self@.len(),
        ensures
            k@ == self@[i as int].0,
    {
        &self.entries[i].0
    }

    /// The record of entry `i`.
    pub fn record_at(&self, i: usize) -> (r: &RepoRecord)
        requires
            i < self@.len(),
        ensures
            r@ == self@[i as int].1,
    {
        &self.entries[i].1
    }

    /// The index of the entry under `key`.
    pub fn find(&self, key: &str) -> (r: Option<usize>)
        ensures
            match r {
                Some(i) => index_of_key(self@, key@) == Some(i as int) && i < self@.len(),
                None => index_of_key(self@, key@) is None,
            },
    {
        let k = chars_of(key);
        assert(k@ == key@);
        let mut i: usize = 0;
        while i < self.entries.len()
            invariant
                i <= self@.len(),
                self@.len() == self.entries@.len(),
                forall|j: int| 0 <= j < i ==> #[trigger] self@[j].0 != key@,
                k@ == key@,
            decreases self@.len() - i,
        {
            let ek = chars_of(self.entries[i].0.as_str());
            assert(self@[i as int] == entry_view(self.entries@[i as int]));
            assert(ek@ == self.entries@[i as int].0@);
            assert(self@[i as int].0 == self.entries@[i as int].0@);
            let same = crate::text::chars_eq(&ek, &k);
            if same {
                assert(ek@ == k@);
                assert(k@ == key@);
                assert(self@[i as int].0 == key@);
                proof { lemma_index_of_key_at(self@, key@, i as int); }
                return Some(i);
            }
            i += 1;
        }
        proof { lemma_index_of_key_none(self@, key@); }
        None
    }

    /// The record under `key`.
    pub fn get(&self, key: &str) -> (r: Option<&RepoRecord>)
        ensures
            match r {
                Some(rec) => table_get(self@, key@) == Some(rec@),
                None => table_get(self@, key@) is None,
            },
    {
        match self.find(key) {
            Some(i) => Some(self.record_at(i)),
            None => None,
        }
    }

    pub fn contains_key(&self, key: &str) -> (b: bool)
        ensures
            b == (table_get(self@, key@) is Some),
    {
        self.find(key).is_some()
    }

    /// Stores `record` under `key`, replacing what was there.
    pub fn insert(&mut self, key: String, record: RepoRecord)
        ensures
            final(self)@ == table_insert(old(self)@, key@, record@),
            sorted_keys(final(self)@),
    {
        proof {
            use_type_invariant(&*self);
            law_table_insert(self@, key@, record@, key@);
        }
        let mut entries: Vec<(String, RepoRecord)> = Vec::new();
        std::mem::swap(&mut entries, &mut self.entries);
        entries_insert(&mut entries, key, record);
        self.entries = entries;
    }

    /// Takes out the entry under `key`, returning its record.
    pub fn remove(&mut self, key: &str) -> (r: Option<RepoRecord>)
        ensures
            final(self)@ == table_remove(old(self)@, key@),
            sorted_keys(final(self)@),
            match r {
                Some(rec) => table_get(old(self)@, key@) == Some(rec@),
                None => table_get(old(self)@, key@) is None,
            },
    {
        proof {
            use_type_invariant(&*self);
            law_table_remove(self@, key@, key@);
        }
        match self.find(key) {
            Some(i) => {
                let ghost before = self@;
                let mut entries: Vec<(String, RepoRecord)> = Vec::new();
                std::mem::swap(&mut entries, &mut self.entries);
                let (_, rec) = entries.remove(i);
                assert(table_of(entries@) =~= before.remove(i as int));
                self.entries = entries;
                Some(rec)
            },
            None => None,
        }
    }

    /// Empties the table.
    pub fn clear(&mut self)
        ensures
            final(self)@ == Seq::<(Seq<char>, RepoRecordView)>::empty(),
    {
        self.entries = Vec::new();
        assert(self@ =~= Seq::<(Seq<char>, RepoRecordView)>::empty());
    }

    /// Copies of the records, in key order.
    pub fn values(&self) -> (v: Vec<RepoRecord>)
        ensures
            v@.len() == self@.len(),
            forall|i: int| 0 <= i < v@.len() ==> #[trigger] v@[i]@ == self@[i].1,
    {
        let mut out: Vec<RepoRecord> = Vec::new();
        let mut i: usize = 0;
        while i < self.entries.len()
            invariant
                i <= self@.len(),
                self@.len() == self.entries@.len(),
                out@.len() == i,
                forall|j: int| 0 <= j < i ==> #[trigger] out@[j]@ == self@[j].1,
            decreases self@.len() - i,
        {
            assert(self@[i as int] == entry_view(self.entries@[i as int]));
            out.push(self.entries[i].1.duplicate());
            i += 1;
        }
        out
    }

    /// Copies of the keys, in order.
    pub fn keys(&self) -> (v: Vec<String>)
        ensures
            v@.len() == self@.len(),
            forall|i: int| 0 <= i < v@.len() ==> #[trigger] v@[i]@ == self@[i].0,
    {
        let mut out: Vec<String> = Vec::new();
        let mut i: usize = 0;
        while i < self.entries.len()
            invariant
                i <= self@.len(),
                self@.len() == self.entries@.len(),
                out@.len() == i,
                forall|j: int| 0 <= j < i ==> #[trigger] out@[j]@ == self@[j].0,
            decreases self@.len() - i,
        {
            assert(self@[i as int] == entry_view(self.entries@[i as int]));
            out.push(self.entries[i].0.clone());
            i += 1;
        }
        out
    }
}

/// The table that a list of entries stands for.
spec fn table_of(es: Seq<(String, RepoRecord)>) -> TableView {
    es.map_values(|e: (String, RepoRecord)| entry_view(e))
}

/// Stores `(key, record)` in a list kept in key order.
fn entries_insert(entries: &mut Vec<(String, RepoRecord)>, key: String, record: RepoRecord)
    ensures
        table_of(final(entries)@) == table_insert(table_of(old(entries)@), key@, record@),
{
        let k = chars_of(key.as_str());
        let mut i: usize = 0;
        assert(table_of(entries@).skip(0) =~= table_of(entries@));
        while i < entries.len() && crate::domain::model::chars_lt(&chars_of(entries[i].0.as_str()), &k)
            invariant
                i <= table_of(entries@).len(),
                table_of(entries@).len() == entries@.len(),
                insert_pos(table_of(entries@), key@) == insert_pos(table_of(entries@).skip(i as int), key@) + i,
                k@ == key@,
            decreases table_of(entries@).len() - i,
        {
            assert(table_of(entries@)[i as int] == entry_view(entries@[i as int]));
            assert(table_of(entries@)[i as int].0 == entries@[i as int].0@);
            assert(table_of(entries@).skip(i as int)[0] == table_of(entries@)[i as int]);
            assert(key_lt(table_of(entries@).skip(i as int)[0].0, key@));
            assert(table_of(entries@).skip(i as int).drop_first() =~= table_of(entries@).skip(i + 1));
            i += 1;
        }
        assert(insert_pos(table_of(entries@), key@) == i) by {
            if i < table_of(entries@).len() {
                assert(table_of(entries@)[i as int] == entry_view(entries@[i as int]));
                assert(table_of(entries@).skip(i as int)[0] == table_of(entries@)[i as int]);
            }
        }
        let ghost before = table_of(entries@);
        let ghost kv = (key@, record@);
        if i < entries.len() && crate::text::chars_eq(&chars_of(entries[i].0.as_str()), &k) {
            assert(table_of(entries@)[i as int] == entry_view(entries@[i as int]));
            entries.set(i, (key, record));
            assert(table_of(entries@) =~= before.update(i as int, kv));
        } else {
            proof {
                if i < before.len() {
                    assert(before[i as int] == entry_view(old(entries)@[i as int]));
                }
            }
            entries.insert(i, (key, record));
            assert(table_of(entries@) =~= before.insert(i as int, kv));
        }
    }

/// `a` comes before `b` in `String` order.
pub fn chars_lt(a: &Vec<char>, b: &Vec<char>) -> (r: bool)
    ensures
        r == key_lt(a@, b@),
{
    let mut i: usize = 0;
    assert(a@.skip(0) =~= a@);
    assert(b@.skip(0) =~= b@);
    while i < a.len() && i < b.len() && a[i] == b[i]
        invariant
            i <= a.len(),
            i <= b.len(),
            key_lt(a@, b@) == key_lt(a@.skip(i as int), b@.skip(i as int)),
        decreases a.len() - i,
    {
        assert(a@.skip(i as int)[0] == a@[i as int]);
        assert(b@.skip(i as int)[0] == b@[i as int]);
        assert(a@.skip(i as int).drop_first() =~= a@.skip(i + 1));
        assert(b@.skip(i as int).drop_first() =~= b@.skip(i + 1));
        i += 1;
    }
    if i == a.len() {
        assert(a@.skip(i as int).len() == 0);
        assert(key_lt(a@.skip(i as int), b@.skip(i as int)) == (b@.skip(i as int).len() > 0));
        assert(key_lt(a@, b@) == (i < b.len()));
        i < b.len()
    } else if i == b.len() {
        assert(b@.skip(i as int).len() == 0);
        false
    } else {
        assert(a@.skip(i as int)[0] == a@[i as int]);
        assert(b@.skip(i as int)[0] == b@[i as int]);
        assert(a@[i as int] != b@[i as int]);
        a[i] < b[i]
    }
}

proof fn lemma_index_of_key_at(t: TableView, k: Seq<char>, i: int)
    requires
        0 <= i < t.len(),
        t[i].0 == k,
        forall|j: int| 0 <= j < i ==> #[trigger] t[j].0 != k,
    ensures
        index_of_key(t, k) == Some(i),
    decreases i,
{
    if i > 0 {
        assert forall|j: int| 0 <= j < i - 1 implies #[trigger] t.drop_first()[j].0 != k by {
            assert(t.drop_first()[j] == t[j + 1]);
        }
        lemma_index_of_key_at(t.drop_first(), k, i - 1);
    }
}

proof fn lemma_index_of_key_none(t: TableView, k: Seq<char>)
    requires
        forall|j: int| 0 <= j < t.len() ==> #[trigger] t[j].0 != k,
    ensures
        index_of_key(t, k) is None,
    decreases t.len(),
{
    if t.len() > 0 {
        assert forall|j: int| 0 <= j < t.drop_first().len() implies #[trigger] t.drop_first()[j].0
            != k by {
            assert(t.drop_first()[j] == t[j + 1]);
        }
        lemma_index_of_key_none(t.drop_first(), k);
    }
}

/// The index found under a key holds that key, and no earlier entry does.
pub proof fn lemma_index_of_key(t: TableView, k: Seq<char>)
    ensures
        match index_of_key(t, k) {
            Some(i) => 0 <= i < t.len() && t[i].0 == k && forall|j: int|
                0 <= j < i ==> #[trigger] t[j].0 != k,
            None => forall|j: int| 0 <= j < t.len() ==> #[trigger] t[j].0 != k,
        },
    decreases t.len(),
{
    if t.len() > 0 {
        lemma_index_of_key(t.drop_first(), k);
        assert forall|j: int| 1 <= j < t.len() implies #[trigger] t[j] == t.drop_first()[j - 1] by {}
    }
}


// ---------------------------------------------------------------------------
// Laws of the repository table
// ---------------------------------------------------------------------------

proof fn lemma_key_lt_irreflexive(a: Seq<char>)
    ensures
        !key_lt(a, a),
    decreases a.len(),
{
    if a.len() > 0 {
        lemma_key_lt_irreflexive(a.drop_first());
    }
}

proof fn lemma_key_lt_total(a: Seq<char>, b: Seq<char>)
    requires
        a != b,
    ensures
        key_lt(a, b) || key_lt(b, a),
    decreases a.len(),
{
    if a.len() > 0 && b.len() > 0 && a[0] == b[0] {
        if a.drop_first() == b.drop_first() {
            assert(a =~= seq![a[0]] + a.drop_first());
            assert(b =~= seq![b[0]] + b.drop_first());
        }
        lemma_key_lt_total(a.drop_first(), b.drop_first());
    } else if a.len() == 0 && b.len() == 0 {
        assert(a =~= b);
    }
}

proof fn lemma_key_lt_asymmetric(a: Seq<char>, b: Seq<char>)
    requires
        key_lt(a, b),
    ensures
        !key_lt(b, a),
    decreases a.len(),
{
    if a.len() > 0 && b.len() > 0 && a[0] == b[0] {
        lemma_key_lt_asymmetric(a.drop_first(), b.drop_first());
    }
}

proof fn lemma_key_lt_transitive(a: Seq<char>, b: Seq<char>, c: Seq<char>)
    requires
        key_lt(a, b),
        key_lt(b, c),
    ensures
        key_lt(a, c),
    decreases a.len(),
{
    if a.len() > 0 && b.len() > 0 && c.len() > 0 && a[0] == b[0] && b[0] == c[0] {
        lemma_key_lt_transitive(a.drop_first(), b.drop_first(), c.drop_first());
    }
}

proof fn lemma_insert_pos(t: TableView, k: Seq<char>)
    ensures
        0 <= insert_pos(t, k) <= t.len(),
        forall|i: int| 0 <= i < insert_pos(t, k) ==> key_lt(#[trigger] t[i].0, k),
        insert_pos(t, k) < t.len() ==> !key_lt(t[insert_pos(t, k)].0, k),
    decreases t.len(),
{
    if t.len() > 0 && key_lt(t[0].0, k) {
        lemma_insert_pos(t.drop_first(), k);
        assert forall|i: int| 0 <= i < insert_pos(t, k) implies key_lt(#[trigger] t[i].0, k) by {
            if i > 0 {
                assert(t[i] == t.drop_first()[i - 1]);
            }
        }
    }
}

/// In a sorted table, the entries from `insert_pos` on have keys not below `k`,
/// and those after a match are above it.
proof fn lemma_insert_pos_sorted(t: TableView, k: Seq<char>)
    requires
        sorted_keys(t),
    ensures
        forall|i: int|
            insert_pos(t, k) <= i < t.len() && !(i == insert_pos(t, k) && t[i].0 == k) ==> key_lt(
                k,
                #[trigger] t[i].0,
            ),
{
    lemma_insert_pos(t, k);
    let p = insert_pos(t, k);
    assert forall|i: int| p <= i < t.len() && !(i == p && t[i].0 == k) implies key_lt(
        k,
        #[trigger] t[i].0,
    ) by {
        if t[p].0 == k {
            assert(key_lt(t[p].0, t[i].0));
        } else {
            lemma_key_lt_total(t[p].0, k);
            if i > p {
                lemma_key_lt_transitive(k, t[p].0, t[i].0);
            }
        }
    }
}

proof fn lemma_unique_index(t: TableView, k: Seq<char>, i: int)
    requires
        sorted_keys(t),
        0 <= i < t.len(),
        t[i].0 == k,
    ensures
        index_of_key(t, k) == Some(i),
{
    assert forall|j: int| 0 <= j < i implies #[trigger] t[j].0 != k by {
        assert(key_lt(t[j].0, t[i].0));
        lemma_key_lt_irreflexive(k);
    }
    lemma_index_of_key_at(t, k, i);
}

/// Storing under a key keeps the keys in order; the key then gives the stored
/// record, and every other key gives what it gave before.
pub proof fn law_table_insert(t: TableView, k: Seq<char>, v: RepoRecordView, other: Seq<char>)
    requires
        sorted_keys(t),
    ensures
        sorted_keys(table_insert(t, k, v)),
        table_get(table_insert(t, k, v), k) == Some(v),
        other != k ==> table_get(table_insert(t, k, v), other) == table_get(t, other),
{
    if other != k {
        lemma_table_insert(t, k, v, other);
    } else {
        assert(k.push('/').len() != k.len());
        lemma_table_insert(t, k, v, k.push('/'));
    }
}

proof fn lemma_table_insert(t: TableView, k: Seq<char>, v: RepoRecordView, other: Seq<char>)
    requires
        sorted_keys(t),
        other != k,
    ensures
        sorted_keys(table_insert(t, k, v)),
        table_get(table_insert(t, k, v), k) == Some(v),
        table_get(table_insert(t, k, v), other) == table_get(t, other),
{
    let p = insert_pos(t, k);
    lemma_insert_pos(t, k);
    lemma_insert_pos_sorted(t, k);
    lemma_index_of_key(t, other);
    let n = table_insert(t, k, v);
    if p < t.len() && t[p].0 == k {
        assert(sorted_keys(n)) by {
            assert forall|i: int, j: int| 0 <= i < j < n.len() implies key_lt(
                #[trigger] n[i].0,
                #[trigger] n[j].0,
            ) by {
                assert(n[i].0 == t[i].0 && n[j].0 == t[j].0);
            }
        }
        lemma_unique_index(n, k, p);
        match index_of_key(t, other) {
            Some(j) => {
                assert(n[j].0 == other);
                lemma_unique_index(n, other, j);
            },
            None => {
                assert forall|j: int| 0 <= j < n.len() implies #[trigger] n[j].0 != other by {
                    assert(n[j].0 == t[j].0 || j == p);
                }
                lemma_index_of_key_none(n, other);
            },
        }
    } else {
        assert(sorted_keys(n)) by {
            assert forall|i: int, j: int| 0 <= i < j < n.len() implies key_lt(
                #[trigger] n[i].0,
                #[trigger] n[j].0,
            ) by {
                if j < p {
                    assert(n[i] == t[i] && n[j] == t[j]);
                } else if j == p {
                    assert(n[i] == t[i]);
                } else if i < p {
                    assert(n[i] == t[i] && n[j] == t[j - 1]);
                    assert(key_lt(t[i].0, k));
                    assert(key_lt(k, t[j - 1].0));
                    lemma_key_lt_transitive(t[i].0, k, t[j - 1].0);
                } else if i == p {
                    assert(n[j] == t[j - 1]);
                } else {
                    assert(n[i] == t[i - 1] && n[j] == t[j - 1]);
                }
            }
        }
        lemma_unique_index(n, k, p);
        match index_of_key(t, other) {
            Some(j) => {
                if j < p {
                    assert(n[j] == t[j]);
                    lemma_unique_index(n, other, j);
                } else {
                    assert(n[j + 1] == t[j]);
                    lemma_unique_index(n, other, j + 1);
                }
            },
            None => {
                assert forall|j: int| 0 <= j < n.len() implies #[trigger] n[j].0 != other by {
                    if j < p {
                        assert(n[j] == t[j]);
                    } else if j > p {
                        assert(n[j] == t[j - 1]);
                    }
                }
                lemma_index_of_key_none(n, other);
            },
        }
    }
}

/// Taking a key out keeps the keys in order; the key then gives nothing, and every
/// other key gives what it gave before.
pub proof fn law_table_remove(t: TableView, k: Seq<char>, other: Seq<char>)
    requires
        sorted_keys(t),
    ensures
        sorted_keys(table_remove(t, k)),
        table_get(table_remove(t, k), k) is None,
        other != k ==> table_get(table_remove(t, k), other) == table_get(t, other),
{
    if other != k {
        lemma_table_remove(t, k, other);
    } else {
        assert(k.push('/').len() != k.len());
        lemma_table_remove(t, k, k.push('/'));
    }
}

proof fn lemma_table_remove(t: TableView, k: Seq<char>, other: Seq<char>)
    requires
        sorted_keys(t),
        other != k,
    ensures
        sorted_keys(table_remove(t, k)),
        table_get(table_remove(t, k), k) is None,
        table_get(table_remove(t, k), other) == table_get(t, other),
{
    lemma_index_of_key(t, k);
    lemma_index_of_key(t, other);
    let n = table_remove(t, k);
    match index_of_key(t, k) {
        Some(i) => {
            assert(sorted_keys(n)) by {
                assert forall|a: int, b: int| 0 <= a < b < n.len() implies key_lt(
                    #[trigger] n[a].0,
                    #[trigger] n[b].0,
                ) by {
                    let a0 = if a < i { a } else { a + 1 };
                    let b0 = if b < i { b } else { b + 1 };
                    assert(n[a] == t[a0] && n[b] == t[b0]);
                }
            }
            assert forall|j: int| 0 <= j < n.len() implies #[trigger] n[j].0 != k by {
                let j0 = if j < i { j } else { j + 1 };
                assert(n[j] == t[j0]);
                if j0 < i {
                    assert(key_lt(t[j0].0, t[i].0));
                } else {
                    assert(key_lt(t[i].0, t[j0].0));
                }
                lemma_key_lt_irreflexive(k);
            }
            lemma_index_of_key_none(n, k);
            match index_of_key(t, other) {
                Some(j) => {
                    if j < i {
                        assert(n[j] == t[j]);
                        lemma_unique_index(n, other, j);
                    } else {
                        assert(j != i);
                        assert(n[j - 1] == t[j]);
                        lemma_unique_index(n, other, j - 1);
                    }
                },
                None => {
                    assert forall|j: int| 0 <= j < n.len() implies #[trigger] n[j].0 != other by {
                        let j0 = if j < i { j } else { j + 1 };
                        assert(n[j] == t[j0]);
                    }
                    lemma_index_of_key_none(n, other);
                },
            }
        },
        None => {},
    }
}

// ---------------------------------------------------------------------------
// Files
// ---------------------------------------------------------------------------

/// The cache's state file.
#[derive(Debug)]
pub struct ConfigFile {
    pub version: String,
    pub defaults: ConfigDefaults,
    pub repos: RepoTable,
}

impl Default for ConfigFile {
    fn default() -> (c: Self)
        ensures
            c.version@ == STATE_VERSION@,
            c.defaults.default_branch@ == "main"@,
            c.defaults.shallow_clone,
            c.defaults.shallow_depth == 1,
            c.repos@.len() == 0,
    {
        ConfigFile {
            version: owned(STATE_VERSION),
            defaults: ConfigDefaults::default(),
            repos: RepoTable::new(),
        }
    }
}

/// A reference copied from the cache into a workspace.
#[derive(Debug, Clone)]
pub struct LoadingEntry {
    pub id: String,
    pub repo_name: String,
    pub repo_url: String,
    pub commit_id: String,
    pub branch: Option<String>,
    pub subdir: Option<String>,
    pub target_path: String,
    pub loaded_at: i128,
    pub updated_at: Option<i128>,
    pub working_directory: String,
}

pub struct LoadingEntryView {
    pub id: Seq<char>,
    pub repo_name: Seq<char>,
    pub repo_url: Seq<char>,
    pub commit_id: Seq<char>,
    pub branch: Option<Seq<char>>,
    pub subdir: Option<Seq<char>>,
    pub target_path: Seq<char>,
    pub loaded_at: i128,
    pub updated_at: Option<i128>,
    pub working_directory: Seq<char>,
}

impl View for LoadingEntry {
    type V = LoadingEntryView;

    open spec fn view(&self) -> LoadingEntryView {
        LoadingEntryView {
            id: self.id@,
            repo_name: self.repo_name@,
            repo_url: self.repo_url@,
            commit_id: self.commit_id@,
            branch: self.branch.deep_view(),
            subdir: self.subdir.deep_view(),
            target_path: self.target_path@,
            loaded_at: self.loaded_at,
            updated_at: self.updated_at,
            working_directory: self.working_directory@,
        }
    }
}

impl LoadingEntry {
    /// A copy of the entry.
    pub fn duplicate(&self) -> (r: Self)
        ensures
            r@ == self@,
    {
        LoadingEntry {
            id: self.id.clone(),
            repo_name: self.repo_name.clone(),
            repo_url: self.repo_url.clone(),
            commit_id: self.commit_id.clone(),
            branch: clone_opt(&self.branch),
            subdir: clone_opt(&self.subdir),
            target_path: self.target_path.clone(),
            loaded_at: self.loaded_at,
            updated_at: self.updated_at,
            working_directory: self.working_directory.clone(),
        }
    }
}

/// The workspaces' state file.
#[derive(Debug, Clone)]
pub struct LoadingFile {
    pub version: String,
    pub entries: Vec<LoadingEntry>,
}

impl Default for LoadingFile {
    fn default() -> (l: Self)
        ensures
            l.version@ == STATE_VERSION@,
            l.entries@.len() == 0,
    {
        LoadingFile { version: owned(STATE_VERSION), entries: Vec::new() }
    }
}

} // verus!
