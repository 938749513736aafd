//! The ordered key/value store that holds every index row.  Keys are byte
//! strings kept in strictly ascending lexicographic order, so a prefix scan
//! returns rows in the order the schema relies on.  The store's contract is a
//! finite map from keys to values; batched writes apply left to right.

use vstd::prelude::*;

use crate::bytes::{cmp_bytes, is_prefix, lex_lt, lemma_lex_trans, lemma_lex_trichotomy,
    starts_with, KeyOrder};

verus! {

/// One key/value row of the store.
pub struct Row {
    pub key: Vec<u8>,
    pub value: Vec<u8>,
}

impl Row {
    /// The key/value pair this row holds.
    pub open spec fn kv(&self) -> (Seq<u8>, Seq<u8>) {
        (self.key@, self.value@)
    }
}

/// Tuning flags for the store.
#[derive(Debug)]
pub struct StoreOptions {
    pub auto_compact: bool,
}

/// An ordered key/value store: rows sorted strictly by key.
pub struct Store {
    pub rows: Vec<Row>,
}

/// Keys of `rows` are strictly ascending in lexicographic order.
pub open spec fn sorted_rows(rows: Seq<Row>) -> bool {
    forall|i: int, j: int|
        0 <= i < j < rows.len() ==> lex_lt(#[trigger] rows[i].key@, #[trigger] rows[j].key@)
}

/// No two of `rows` share a key.
pub open spec fn distinct_keys(rows: Seq<Row>) -> bool {
    forall|i: int, j: int|
        0 <= i < j < rows.len() ==> (#[trigger] rows[i].key@) != (#[trigger] rows[j].key@)
}

/// The finite map a row sequence denotes; later rows override earlier ones.
pub open spec fn kvs_map(rows: Seq<Row>) -> Map<Seq<u8>, Seq<u8>>
    decreases rows.len(),
{
    if rows.len() == 0 {
        Map::empty()
    } else {
        kvs_map(rows.drop_last()).insert(rows.last().key@, rows.last().value@)
    }
}

/// Applies a batch of key/value pairs to a map, later pairs overriding
/// earlier ones.
pub open spec fn put_seq(m: Map<Seq<u8>, Seq<u8>>, rows: Seq<(Seq<u8>, Seq<u8>)>) -> Map<
    Seq<u8>,
    Seq<u8>,
>
    decreases rows.len(),
{
    if rows.len() == 0 {
        m
    } else {
        put_seq(m, rows.drop_last()).insert(rows.last().0, rows.last().1)
    }
}

/// Strictly sorted keys are pairwise distinct.
pub proof fn lemma_sorted_distinct(rows: Seq<Row>)
    requires
        sorted_rows(rows),
    ensures
        distinct_keys(rows),
{
    assert forall|i: int, j: int| 0 <= i < j < rows.len() implies (#[trigger] rows[i].key@)
        != (#[trigger] rows[j].key@) by {
        lemma_lex_trichotomy(rows[i].key@, rows[j].key@);
    }
}

/// What `kvs_map` holds: a key is present exactly when some row carries it,
/// and (keys being distinct) it maps to that row's value.
pub proof fn lemma_kvs_char(rows: Seq<Row>)
    requires
        distinct_keys(rows),
    ensures
        forall|k: Seq<u8>| #![trigger kvs_map(rows).contains_key(k)]
            kvs_map(rows).contains_key(k) <==> exists|i: int|
                0 <= i < rows.len() && (#[trigger] rows[i].key@) == k,
        forall|i: int|
            0 <= i < rows.len() ==> kvs_map(rows)[(#[trigger] rows[i]).key@] == rows[i].value@,
    decreases rows.len(),
{
    if rows.len() > 0 {
        let prefix = rows.drop_last();
        assert(prefix.len() == rows.len() - 1);
        assert forall|i: int, j: int| 0 <= i < j < prefix.len() implies (#[trigger] prefix[i].key@)
            != (#[trigger] prefix[j].key@) by {
            assert(prefix[i] == rows[i] && prefix[j] == rows[j]);
        }
        lemma_kvs_char(prefix);
        assert(rows.last() == rows[rows.len() - 1]);
        assert(kvs_map(rows) == kvs_map(prefix).insert(rows.last().key@, rows.last().value@));
        assert forall|k: Seq<u8>| kvs_map(rows).contains_key(k) implies exists|i: int|
            0 <= i < rows.len() && (#[trigger] rows[i].key@) == k by {
            if k == rows.last().key@ {
                assert(rows[rows.len() - 1].key@ == k);
            } else {
                assert(kvs_map(prefix).contains_key(k));
                let i = choose|i: int| 0 <= i < prefix.len() && (#[trigger] prefix[i].key@) == k;
                assert(prefix[i] == rows[i]);
                assert(rows[i].key@ == k);
            }
        }
        assert forall|k: Seq<u8>|
            (exists|i: int| 0 <= i < rows.len() && (#[trigger] rows[i].key@) == k) implies kvs_map(
            rows,
        ).contains_key(k) by {
            let i = choose|i: int| 0 <= i < rows.len() && (#[trigger] rows[i].key@) == k;
            if i < rows.len() - 1 {
                assert(prefix[i].key@ == k);
            }
        }
        assert forall|i: int| 0 <= i < rows.len() implies kvs_map(rows)[(
        #[trigger] rows[i]).key@] == rows[i].value@ by {
            if i < rows.len() - 1 {
                assert(prefix[i] == rows[i]);
                assert(rows[i].key@ != rows.last().key@);
                assert(kvs_map(rows)[rows[i].key@] == kvs_map(prefix)[prefix[i].key@]);
            }
        }
    }
}

impl Store {
    /// The store's rows are sorted with strictly ascending keys.
    pub open spec fn wf(&self) -> bool {
        sorted_rows(self.rows@)
    }

    /// The rows the store holds, in key order.
    pub open spec fn rows_seq(&self) -> Seq<Row> {
        self.rows@
    }

    /// The finite map from keys to values that the store represents.
    pub open spec fn contents(&self) -> Map<Seq<u8>, Seq<u8>> {
        kvs_map(self.rows@)
    }

    /// A sorted store maps the key of its row `i` to that row's value.
    pub proof fn lemma_row_value(&self, i: int)
        requires
            self.wf(),
            0 <= i < self.rows_seq().len(),
        ensures
            self.contents().contains_key(self.rows_seq()[i].key@),
            self.contents()[self.rows_seq()[i].key@] == self.rows_seq()[i].value@,
    {
        lemma_sorted_distinct(self.rows@);
        lemma_kvs_char(self.rows@);
    }

    /// A key the contents map holds is carried by some row.
    pub proof fn lemma_key_to_row(&self, k: Seq<u8>)
        requires
            self.wf(),
            self.contents().contains_key(k),
        ensures
            exists|i: int|
                0 <= i < self.rows_seq().len() && (#[trigger] self.rows_seq()[i].key@) == k,
    {
        lemma_sorted_distinct(self.rows@);
        lemma_kvs_char(self.rows@);
        assert(kvs_map(self.rows@).contains_key(k));
        let i = choose|i: int| 0 <= i < self.rows@.len() && (#[trigger] self.rows@[i].key@) == k;
        assert(0 <= i < self.rows_seq().len() && self.rows_seq()[i].key@ == k);
    }

    /// Opens an empty store with the given options.
    pub fn open(_opts: StoreOptions) -> (r: Store)
        ensures
            r.wf(),
            r.contents() == Map::<Seq<u8>, Seq<u8>>::empty(),
            r.rows_seq().len() == 0,
    {
        let r = Store { rows: Vec::new() };
        proof {
            assert(r.contents() =~= Map::<Seq<u8>, Seq<u8>>::empty());
        }
        r
    }

    /// Point lookup.
    pub fn get(&self, key: &Vec<u8>) -> (r: Option<Vec<u8>>)
        requires
            self.wf(),
        ensures
            match r {
                Some(v) => self.contents().contains_key(key@) && v@ == self.contents()[key@],
                None => !self.contents().contains_key(key@),
            },
    {
        let n = self.rows.len();
        let mut i: usize = 0;
        while i < n
            invariant
                self.wf(),
                n == self.rows@.len(),
                i <= n,
                forall|j: int| 0 <= j < i ==> (#[trigger] self.rows@[j].key@) != key@,
            decreases n - i,
        {
            match cmp_bytes(&self.rows[i].key, key) {
                KeyOrder::Equal => {
                    let v = self.rows[i].value.clone();
                    proof {
                        self.lemma_row_value(i as int);
                        assert(v@ =~= self.rows@[i as int].value@);
                    }
                    return Some(v);
                },
                _ => {},
            }
            i = i + 1;
        }
        proof {
            if self.contents().contains_key(key@) {
                self.lemma_key_to_row(key@);
            }
        }
        None
    }

    /// Finds the sorted position of `key`: the index of the first row whose
    /// key is not below `key`, and whether that row carries `key` itself.
    fn find_pos(&self, key: &Vec<u8>) -> (r: (usize, bool))
        requires
            self.wf(),
        ensures
            r.0 <= self.rows_seq().len(),
            forall|j: int| 0 <= j < r.0 ==> lex_lt((#[trigger] self.rows_seq()[j].key@), key@),
            r.1 ==> r.0 < self.rows_seq().len() && self.rows_seq()[r.0 as int].key@ == key@,
            !r.1 && r.0 < self.rows_seq().len() ==> lex_lt(key@, self.rows_seq()[r.0 as int].key@),
            !r.1 ==> !self.contents().contains_key(key@),
    {
        let n = self.rows.len();
        let mut i: usize = 0;
        while i < n
            invariant
                self.wf(),
                n == self.rows@.len(),
                i <= n,
                forall|j: int| 0 <= j < i ==> lex_lt((#[trigger] self.rows@[j].key@), key@),
            decreases n - i,
        {
            match cmp_bytes(&self.rows[i].key, key) {
                KeyOrder::Equal => {
                    return (i, true);
                },
                KeyOrder::Greater => {
                    proof {
                        self.lemma_no_key(key@, i as int);
                    }
                    return (i, false);
                },
                KeyOrder::Less => {},
            }
            i = i + 1;
        }
        proof {
            self.lemma_no_key(key@, n as int);
        }
        (n, false)
    }

    /// A key below which every earlier row sits and above which the row at
    /// `pos` (if any) sits is not in the store.
    proof fn lemma_no_key(&self, key: Seq<u8>, pos: int)
        requires
            self.wf(),
            0 <= pos <= self.rows@.len(),
            forall|j: int| 0 <= j < pos ==> lex_lt((#[trigger] self.rows@[j].key@), key),
            pos < self.rows@.len() ==> lex_lt(key, self.rows@[pos].key@),
        ensures
            !self.contents().contains_key(key),
    {
        lemma_sorted_distinct(self.rows@);
        lemma_kvs_char(self.rows@);
        if self.contents().contains_key(key) {
            let m = choose|m: int|
                0 <= m < self.rows@.len() && (#[trigger] self.rows@[m].key@) == key;
            if m < pos {
                lemma_lex_trichotomy(self.rows@[m].key@, key);
            } else {
                if m > pos {
                    lemma_lex_trans(key, self.rows@[pos].key@, self.rows@[m].key@);
                }
                lemma_lex_trichotomy(key, self.rows@[m].key@);
            }
        }
    }

    /// Inserts one row, replacing the value if the key is present.
    pub fn put(&mut self, key: Vec<u8>, value: Vec<u8>)
        requires
            old(self).wf(),
        ensures
            final(self).wf(),
            final(self).contents() == old(self).contents().insert(key@, value@),
    {
        let ghost old_rows = self.rows@;
        let (i, found) = self.find_pos(&key);
        if found {
            self.rows.remove(i);
            let ghost mid_rows = self.rows@;
            let new_row = Row { key, value };
            let ghost nr = new_row;
            self.rows.insert(i, new_row);
            proof {
                old_rows.remove_ensures(i as int);
                mid_rows.insert_ensures(i as int, nr);
                assert(self.rows@ == mid_rows.insert(i as int, nr));
                assert(self.rows@.len() == old_rows.len());
                assert(self.rows@[i as int] == nr);
                assert forall|j: int|
                    0 <= j < old_rows.len() && j != i implies #[trigger] self.rows@[j]
                    == old_rows[j] by {
                    if j < i {
                        assert(self.rows@[j] == mid_rows[j]);
                        assert(mid_rows[j] == old_rows[j]);
                    } else {
                        assert(self.rows@[j] == mid_rows[j - 1]);
                        assert(mid_rows[j - 1] == old_rows[j]);
                    }
                }
                self.lemma_replace(old_rows, i as int);
            }
        } else {
            let new_row = Row { key, value };
            let ghost nr = new_row;
            self.rows.insert(i, new_row);
            proof {
                old_rows.insert_ensures(i as int, nr);
                assert(self.rows@ == old_rows.insert(i as int, nr));
                assert(self.rows@[i as int] == nr);
                assert forall|j: int| 0 <= j < i implies #[trigger] self.rows@[j] == old_rows[j] by {}
                assert forall|j: int| i < j < self.rows@.len() implies #[trigger] self.rows@[j]
                    == old_rows[j - 1] by {
                    assert(self.rows@[(j - 1) + 1] == old_rows[j - 1]);
                }
                self.lemma_insert_fresh(old_rows, i as int);
            }
        }
    }

    /// Replacing the row at `i` by one with the same key updates exactly
    /// that key in the contents map.
    proof fn lemma_replace(&self, old_rows: Seq<Row>, i: int)
        requires
            sorted_rows(old_rows),
            0 <= i < old_rows.len(),
            self.rows@.len() == old_rows.len(),
            self.rows@[i].key@ == old_rows[i].key@,
            forall|j: int| 0 <= j < old_rows.len() && j != i ==> #[trigger] self.rows@[j] == old_rows[j],
        ensures
            self.wf(),
            self.contents() == kvs_map(old_rows).insert(self.rows@[i].key@, self.rows@[i].value@),
    {
        assert forall|a: int, b: int| 0 <= a < b < self.rows@.len() implies lex_lt(
            #[trigger] self.rows@[a].key@,
            #[trigger] self.rows@[b].key@,
        ) by {
            assert(self.rows@[a].key@ == old_rows[a].key@);
            assert(self.rows@[b].key@ == old_rows[b].key@);
        }
        lemma_sorted_distinct(old_rows);
        lemma_sorted_distinct(self.rows@);
        lemma_kvs_char(old_rows);
        lemma_kvs_char(self.rows@);
        let key = self.rows@[i].key@;
        let target = kvs_map(old_rows).insert(key, self.rows@[i].value@);
        assert forall|k: Seq<u8>| self.contents().contains_key(k) == target.contains_key(k) by {
            if self.contents().contains_key(k) {
                let m = choose|m: int|
                    0 <= m < self.rows@.len() && (#[trigger] self.rows@[m].key@) == k;
                assert(old_rows[m].key@ == k);
            }
            if target.contains_key(k) && k != key {
                let m = choose|m: int| 0 <= m < old_rows.len() && (#[trigger] old_rows[m].key@) == k;
                assert(m != i);
                assert(self.rows@[m].key@ == k);
            }
        }
        assert(self.contents().dom() =~= target.dom());
        assert forall|k: Seq<u8>| self.contents().contains_key(k) implies self.contents()[k]
            == target[k] by {
            let m = choose|m: int| 0 <= m < self.rows@.len() && (#[trigger] self.rows@[m].key@) == k;
            assert(self.contents()[k] == self.rows@[m].value@);
            if k == key {
                if m != i {
                    assert(self.rows@[m].key@ == old_rows[m].key@);
                    assert(old_rows[m].key@ != old_rows[i].key@);
                }
                assert(m == i);
            } else {
                assert(m != i);
                assert(self.rows@[m] == old_rows[m]);
                assert(target[k] == kvs_map(old_rows)[old_rows[m].key@]);
            }
        }
        assert(self.contents() =~= target);
    }

    /// Inserting a fresh row at its sorted position adds exactly its key to
    /// the contents map.
    proof fn lemma_insert_fresh(&self, old_rows: Seq<Row>, i: int)
        requires
            sorted_rows(old_rows),
            0 <= i <= old_rows.len(),
            self.rows@.len() == old_rows.len() + 1,
            forall|j: int| 0 <= j < i ==> #[trigger] self.rows@[j] == old_rows[j],
            forall|j: int| i < j < self.rows@.len() ==> #[trigger] self.rows@[j] == old_rows[j - 1],
            forall|j: int| 0 <= j < i ==> lex_lt((#[trigger] old_rows[j].key@), self.rows@[i].key@),
            i < old_rows.len() ==> lex_lt(self.rows@[i].key@, old_rows[i].key@),
        ensures
            self.wf(),
            self.contents() == kvs_map(old_rows).insert(self.rows@[i].key@, self.rows@[i].value@),
    {
        let key = self.rows@[i].key@;
        assert forall|a: int, b: int| 0 <= a < b < self.rows@.len() implies lex_lt(
            #[trigger] self.rows@[a].key@,
            #[trigger] self.rows@[b].key@,
        ) by {
            if b < i {
                assert(self.rows@[a].key@ == old_rows[a].key@);
                assert(self.rows@[b].key@ == old_rows[b].key@);
            } else if b == i {
                assert(self.rows@[a].key@ == old_rows[a].key@);
            } else if a < i {
                if b - 1 == i && i < old_rows.len() {
                } else if b - 1 > i || i >= old_rows.len() {
                }
                assert(self.rows@[b].key@ == old_rows[b - 1].key@);
                if a < b - 1 {
                } else {
                    assert(a == b - 1);
                    assert(a == i);
                    assert(false);
                }
            } else if a == i {
                assert(self.rows@[b].key@ == old_rows[b - 1].key@);
                if b - 1 == i {
                    assert(lex_lt(key, old_rows[i].key@));
                } else {
                    lemma_lex_trans(key, old_rows[i as int].key@, old_rows[b - 1].key@);
                }
            } else {
                assert(self.rows@[a].key@ == old_rows[a - 1].key@);
                assert(self.rows@[b].key@ == old_rows[b - 1].key@);
            }
        }
        lemma_sorted_distinct(old_rows);
        lemma_sorted_distinct(self.rows@);
        lemma_kvs_char(old_rows);
        lemma_kvs_char(self.rows@);
        let target = kvs_map(old_rows).insert(key, self.rows@[i].value@);
        assert forall|k: Seq<u8>| self.contents().contains_key(k) == target.contains_key(k) by {
            if self.contents().contains_key(k) {
                let m = choose|m: int|
                    0 <= m < self.rows@.len() && (#[trigger] self.rows@[m].key@) == k;
                if m < i {
                    assert(old_rows[m].key@ == k);
                } else if m > i {
                    assert(old_rows[m - 1].key@ == k);
                }
            }
            if target.contains_key(k) && k != key {
                let m = choose|m: int| 0 <= m < old_rows.len() && (#[trigger] old_rows[m].key@) == k;
                if m < i {
                    assert(self.rows@[m].key@ == k);
                } else {
                    assert(self.rows@[m + 1].key@ == k);
                }
            }
        }
        assert(self.contents().dom() =~= target.dom());
        assert forall|k: Seq<u8>| self.contents().contains_key(k) implies self.contents()[k]
            == target[k] by {
            let m = choose|m: int| 0 <= m < self.rows@.len() && (#[trigger] self.rows@[m].key@) == k;
            assert(self.contents()[k] == self.rows@[m].value@);
            if k == key {
                if m != i {
                    let mo: int = if m < i {
                        m
                    } else {
                        m - 1
                    };
                    assert(old_rows[mo].key@ == k);
                    assert(lex_lt(old_rows[mo].key@, key) || lex_lt(key, old_rows[mo].key@));
                    lemma_lex_trichotomy(old_rows[mo].key@, key);
                }
                assert(m == i);
            } else {
                assert(m != i);
                let mo: int = if m < i {
                    m
                } else {
                    m - 1
                };
                assert(old_rows[mo] == self.rows@[m]);
                assert(target[k] == kvs_map(old_rows)[old_rows[mo].key@]);
            }
        }
        assert(self.contents() =~= target);
    }

    /// Removes the row with the given key, if present.
    pub fn delete(&mut self, key: &Vec<u8>)
        requires
            old(self).wf(),
        ensures
            final(self).wf(),
            final(self).contents() == old(self).contents().remove(key@),
    {
        let ghost old_rows = self.rows@;
        let n = self.rows.len();
        let mut i: usize = 0;
        while i < n
            invariant
                sorted_rows(old_rows),
                old_rows == old(self).rows@,
                self.rows@ == old_rows,
                n == self.rows@.len(),
                i <= n,
                forall|j: int| 0 <= j < i ==> (#[trigger] self.rows@[j].key@) != key@,
            decreases n - i,
        {
            match cmp_bytes(&self.rows[i].key, key) {
                KeyOrder::Equal => {
                    self.rows.remove(i);
                    proof {
                        assert(self.rows@ == old_rows.remove(i as int));
                        assert(old_rows[i as int].key@ == key@);
                        self.lemma_after_remove(old_rows, i as int);
                        assert(self.contents() == kvs_map(old_rows).remove(key@));
                        assert(kvs_map(old_rows) == old(self).contents());
                    }
                    return ;
                },
                _ => {},
            }
            i = i + 1;
        }
        proof {
            lemma_sorted_distinct(old_rows);
            lemma_kvs_char(old_rows);
            if self.contents().contains_key(key@) {
                let m = choose|m: int|
                    0 <= m < self.rows@.len() && (#[trigger] self.rows@[m].key@) == key@;
                assert(false);
            }
            assert(self.contents() =~= old(self).contents().remove(key@));
        }
    }

    /// Removing the unique row with a key removes exactly that key from the
    /// contents map.
    proof fn lemma_after_remove(&self, old_rows: Seq<Row>, i: int)
        requires
            sorted_rows(old_rows),
            0 <= i < old_rows.len(),
            self.rows@ == old_rows.remove(i),
        ensures
            self.wf(),
            self.contents() == kvs_map(old_rows).remove(old_rows[i].key@),
    {
        let k = old_rows[i].key@;
        old_rows.remove_ensures(i);
        assert(self.rows@.len() == old_rows.len() - 1);
        assert forall|j: int| 0 <= j < i implies #[trigger] self.rows@[j] == old_rows[j] by {}
        assert forall|j: int| i <= j < self.rows@.len() implies #[trigger] self.rows@[j]
            == old_rows[j + 1] by {}
        assert forall|a: int, b: int| 0 <= a < b < self.rows@.len() implies lex_lt(
            #[trigger] self.rows@[a].key@,
            #[trigger] self.rows@[b].key@,
        ) by {
            if a < i && b >= i {
                assert(self.rows@[b] == old_rows[b + 1]);
            }
        }
        lemma_sorted_distinct(old_rows);
        lemma_sorted_distinct(self.rows@);
        lemma_kvs_char(old_rows);
        lemma_kvs_char(self.rows@);
        let target = kvs_map(old_rows).remove(k);
        assert forall|k2: Seq<u8>| self.contents().contains_key(k2) == target.contains_key(k2) by {
            if self.contents().contains_key(k2) {
                let m = choose|m: int|
                    0 <= m < self.rows@.len() && (#[trigger] self.rows@[m].key@) == k2;
                let mo: int = if m < i {
                    m
                } else {
                    m + 1
                };
                assert(old_rows[mo].key@ == k2);
                assert(mo != i);
            }
            if target.contains_key(k2) {
                let m = choose|m: int|
                    0 <= m < old_rows.len() && (#[trigger] old_rows[m].key@) == k2;
                assert(m != i);
                if m < i {
                    assert(self.rows@[m].key@ == k2);
                } else {
                    assert(self.rows@[m - 1].key@ == k2);
                }
            }
        }
        assert(self.contents().dom() =~= target.dom());
        assert forall|k2: Seq<u8>| self.contents().contains_key(k2) implies self.contents()[k2]
            == target[k2] by {
            let m = choose|m: int|
                0 <= m < self.rows@.len() && (#[trigger] self.rows@[m].key@) == k2;
            let mo: int = if m < i {
                m
            } else {
                m + 1
            };
            assert(old_rows[mo] == self.rows@[m]);
            assert(mo != i);
            assert(target[k2] == kvs_map(old_rows)[old_rows[mo].key@]);
        }
        assert(self.contents() =~= target);
    }

    /// Applies a batch of rows atomically, in order, later rows overriding
    /// earlier ones with the same key.
    pub fn persist(&mut self, batch: Vec<Row>)
        requires
            old(self).wf(),
        ensures
            final(self).wf(),
            final(self).contents() == put_seq(
                old(self).contents(),
                batch@.map_values(|r: Row| r.kv()),
            ),
    {
        let ghost kvs = batch@.map_values(|r: Row| r.kv());
        let mut batch = batch;
        let n = batch.len();
        let mut i: usize = 0;
        proof {
            assert(kvs.take(0) =~= Seq::<(Seq<u8>, Seq<u8>)>::empty());
        }
        while i < n
            invariant
                self.wf(),
                i <= n,
                batch@.len() == n - i,
                kvs.len() == n,
                forall|j: int| 0 <= j < n - i ==> #[trigger] batch@[j].kv() == kvs[i + j],
                self.contents() == put_seq(old(self).contents(), kvs.take(i as int)),
            decreases n - i,
        {
            let row = batch.remove(0);
            proof {
                assert(row.kv() == kvs[i as int]);
                assert forall|j: int| 0 <= j < n - i - 1 implies #[trigger] batch@[j].kv() == kvs[i
                    + 1 + j] by {
                    assert(batch@[j].kv() == kvs[i + (j + 1)]);
                }
            }
            self.put(row.key, row.value);
            proof {
                assert(kvs.take(i as int + 1).drop_last() =~= kvs.take(i as int));
                assert(kvs.take(i as int + 1).last() == kvs[i as int]);
            }
            i = i + 1;
        }
        proof {
            assert(kvs.take(n as int) =~= kvs);
        }
    }

    /// Returns every row whose key begins with `prefix`: exactly the rows
    /// of the contents map under that prefix.
    pub fn scan(&self, prefix: &Vec<u8>) -> (r: Vec<Row>)
        requires
            self.wf(),
        ensures
            forall|i: int|
                0 <= i < r@.len() ==> is_prefix(prefix@, (#[trigger] r@[i]).key@)
                    && self.contents().contains_key(r@[i].key@) && self.contents()[r@[i].key@]
                    == r@[i].value@,
            forall|k: Seq<u8>|
                self.contents().contains_key(k) && is_prefix(prefix@, k) ==> exists|i: int|
                    0 <= i < r@.len() && (#[trigger] r@[i].key@) == k,
    {
        let n = self.rows.len();
        let mut out: Vec<Row> = Vec::new();
        let mut i: usize = 0;
        while i < n
            invariant
                self.wf(),
                n == self.rows@.len(),
                i <= n,
                forall|a: int|
                    #![trigger out@[a]]
                    0 <= a < out@.len() ==> is_prefix(prefix@, out@[a].key@)
                        && self.contents().contains_key(out@[a].key@)
                        && self.contents()[out@[a].key@] == out@[a].value@,
                forall|b: int|
                    0 <= b < i && is_prefix(prefix@, (#[trigger] self.rows@[b]).key@) ==> exists|
                        a: int,
                    | 0 <= a < out@.len() && (#[trigger] out@[a].key@) == self.rows@[b].key@,
            decreases n - i,
        {
            let ghost pre_out = out@;
            if starts_with(&self.rows[i].key, prefix) {
                let k = self.rows[i].key.clone();
                let v = self.rows[i].value.clone();
                proof {
                    assert(k@ =~= self.rows@[i as int].key@);
                    assert(v@ =~= self.rows@[i as int].value@);
                }
                out.push(Row { key: k, value: v });
                proof {
                    self.lemma_row_value(i as int);
                    assert forall|a: int| #![trigger out@[a]] 0 <= a < out@.len() implies
                        is_prefix(prefix@, out@[a].key@) && self.contents().contains_key(
                        out@[a].key@,
                    ) && self.contents()[out@[a].key@] == out@[a].value@ by {
                        if a < pre_out.len() {
                            assert(out@[a] == pre_out[a]);
                        } else {
                            assert(out@[a].key@ == self.rows@[i as int].key@);
                            assert(out@[a].value@ == self.rows@[i as int].value@);
                        }
                    }
                }
            }
            proof {
                assert forall|b: int|
                    0 <= b < i + 1 && is_prefix(prefix@, (#[trigger] self.rows@[b]).key@) implies
                    exists|a: int|
                    0 <= a < out@.len() && (#[trigger] out@[a].key@) == self.rows@[b].key@ by {
                    if b < i {
                        let a0 = choose|a: int|
                            0 <= a < pre_out.len() && (#[trigger] pre_out[a].key@)
                                == self.rows@[b].key@;
                        assert(out@[a0].key@ == self.rows@[b].key@);
                    } else {
                        assert(out@[out@.len() - 1].key@ == self.rows@[b].key@);
                    }
                }
            }
            i = i + 1;
        }
        proof {
            assert forall|k: Seq<u8>|
                self.contents().contains_key(k) && is_prefix(prefix@, k) implies exists|a: int|
                0 <= a < out@.len() && (#[trigger] out@[a].key@) == k by {
                self.lemma_key_to_row(k);
                let m = choose|m: int|
                    0 <= m < self.rows@.len() && (#[trigger] self.rows@[m].key@) == k;
                assert(is_prefix(prefix@, self.rows@[m].key@));
            }
        }
        out
    }
}

} // verus!
