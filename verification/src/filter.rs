//! Compliance denylist filtering.
//!
//! A transaction is suppressed when any address it involves is in the
//! denied set, either directly among its static account keys or indirectly
//! through an address-table lookup.  Addresses that sit in a referenced
//! table but are not picked out by one of the transaction's index lists are
//! ignored, and a reference to a table that is not in the cache contributes
//! no match (the cache is refreshed in the background and the filter is
//! advisory).

use vstd::prelude::*;

use crate::addr::{Address, AddressSet};

verus! {

/// One indirect address-table reference inside a transaction: the table's
/// account key and the index lists of the addresses actually used.
#[derive(Debug)]
pub struct TableLookup {
    /// Account key of the referenced address table.
    pub table_key: Address,
    /// Indexes of the table entries the transaction loads as writable.
    pub writable_indexes: Vec<u8>,
    /// Indexes of the table entries the transaction loads as readonly.
    pub readonly_indexes: Vec<u8>,
}

/// Mathematical view of a table reference.
pub struct LookupView {
    /// Account key of the referenced table.
    pub table_key: Seq<u8>,
    /// Indexes loaded as writable.
    pub writable_indexes: Seq<u8>,
    /// Indexes loaded as readonly.
    pub readonly_indexes: Seq<u8>,
}

impl LookupView {
    /// All indexes the transaction actually references in this table,
    /// writable first, then readonly.
    pub open spec fn referenced_indexes(&self) -> Seq<u8> {
        self.writable_indexes + self.readonly_indexes
    }
}

impl View for TableLookup {
    type V = LookupView;

    open spec fn view(&self) -> LookupView {
        LookupView {
            table_key: self.table_key@,
            writable_indexes: self.writable_indexes@,
            readonly_indexes: self.readonly_indexes@,
        }
    }
}

/// The part of a transaction the filter reads: its static account keys
/// (fee payer, signers, writable and readonly accounts, program ids) and
/// its address-table references.
#[derive(Debug)]
pub struct Transaction {
    /// Account keys stored directly in the transaction.
    pub static_account_keys: Vec<Address>,
    /// Indirect references through address tables.
    pub address_table_lookups: Vec<TableLookup>,
}

/// Mathematical view of a transaction, as the filter and the routing
/// specifications speak of it.
pub struct TxView {
    /// Views of the static account keys.
    pub static_account_keys: Seq<Seq<u8>>,
    /// Views of the table references.
    pub address_table_lookups: Seq<LookupView>,
}

impl View for Transaction {
    type V = TxView;

    open spec fn view(&self) -> TxView {
        TxView {
            static_account_keys: self.static_account_keys@.map_values(|a: Address| a@),
            address_table_lookups: self.address_table_lookups@.map_values(
                |l: TableLookup| l@,
            ),
        }
    }
}

/// One address table: its account key and its ordered list of addresses.
#[derive(Debug)]
pub struct TableEntry {
    /// Account key under which the table is stored.
    pub key: Address,
    /// The addresses the table holds, in table order.
    pub addresses: Vec<Address>,
}

/// Cache of address tables keyed by table account key, filled by a
/// periodic refresh and read by the filter.
#[derive(Debug)]
pub struct TableCache {
    entries: Vec<TableEntry>,
}

impl View for TableCache {
    type V = Map<Seq<u8>, Seq<Seq<u8>>>;

    closed spec fn view(&self) -> Map<Seq<u8>, Seq<Seq<u8>>> {
        Map::new(
            |k: Seq<u8>|
                exists|i: int| 0 <= i < self.entries@.len() && self.entries@[i].key@ == k,
            |k: Seq<u8>|
                {
                    let i = choose|i: int|
                        0 <= i < self.entries@.len() && self.entries@[i].key@ == k;
                    self.entries@[i].addresses@.map_values(|a: Address| a@)
                },
        )
    }
}

/// The map described by a list of table entries, later entries replacing
/// earlier ones with the same key.
pub open spec fn entries_map(s: Seq<TableEntry>) -> Map<Seq<u8>, Seq<Seq<u8>>>
    decreases s.len(),
{
    if s.len() == 0 {
        Map::empty()
    } else {
        entries_map(s.drop_last()).insert(
            s.last().key@,
            s.last().addresses@.map_values(|a: Address| a@),
        )
    }
}

impl TableCache {
    /// Internal invariant: table keys are pairwise distinct.
    pub closed spec fn wf(&self) -> bool {
        forall|i: int, j: int|
            0 <= i < j < self.entries@.len() ==> self.entries@[i].key@ != self.entries@[j].key@
    }

    /// The empty cache.
    pub fn new() -> (r: TableCache)
        ensures
            r.wf(),
            r@ =~= Map::<Seq<u8>, Seq<Seq<u8>>>::empty(),
    {
        let r = TableCache { entries: Vec::new() };
        proof {
            assert(r@ =~= Map::<Seq<u8>, Seq<Seq<u8>>>::empty());
        }
        r
    }

    /// Looks a table up by its account key.
    pub fn get(&self, key: &Address) -> (r: Option<&Vec<Address>>)
        requires
            self.wf(),
        ensures
            match r {
                Some(v) => self@.contains_key(key@) && v@.map_values(|a: Address| a@)
                    == self@[key@],
                None => !self@.contains_key(key@),
            },
    {
        let mut i: usize = 0;
        while i < self.entries.len()
            invariant
                self.wf(),
                i <= self.entries@.len(),
                forall|j: int| 0 <= j < i ==> self.entries@[j].key@ != key@,
            decreases self.entries@.len() - i,
        {
            if self.entries[i].key.same_as(key) {
                return Some(&self.entries[i].addresses);
            }
            i = i + 1;
        }
        None
    }

    /// With distinct keys, the view holds exactly the entry stored at any
    /// index, under that entry's key.
    proof fn lemma_at(c: TableCache, i: int)
        requires
            c.wf(),
            0 <= i < c.entries@.len(),
        ensures
            c@.contains_key(c.entries@[i].key@),
            c@[c.entries@[i].key@] == c.entries@[i].addresses@.map_values(|a: Address| a@),
    {
        let k = c.entries@[i].key@;
        assert(c@.contains_key(k));
        let j = choose|j: int| 0 <= j < c.entries@.len() && c.entries@[j].key@ == k;
        if j < i {
            assert(c.entries@[j].key@ != c.entries@[i].key@);
        } else if i < j {
            assert(c.entries@[i].key@ != c.entries@[j].key@);
        }
        assert(j == i);
    }

    /// Inserts a table, replacing any table stored under the same key.
    pub fn upsert(&mut self, entry: TableEntry)
        requires
            old(self).wf(),
        ensures
            final(self).wf(),
            final(self)@ =~= old(self)@.insert(
                entry.key@,
                entry.addresses@.map_values(|a: Address| a@),
            ),
    {
        let ghost k0 = entry.key@;
        let ghost v0 = entry.addresses@.map_values(|a: Address| a@);
        let mut i: usize = 0;
        while i < self.entries.len()
            invariant
                self.wf(),
                *old(self) == *self,
                entry.key@ == k0,
                entry.addresses@.map_values(|a: Address| a@) == v0,
                i <= self.entries@.len(),
                forall|j: int| 0 <= j < i ==> self.entries@[j].key@ != entry.key@,
            decreases self.entries@.len() - i,
        {
            if self.entries[i].key.same_as(&entry.key) {
                let ghost prev = *self;
                let ghost e = entry;
                self.entries.set(i, entry);
                proof {
                    let newc = *self;
                    assert(newc.entries@ =~= prev.entries@.update(i as int, e));
                    assert(newc.entries@[i as int] == e);
                    assert(newc.entries@[i as int].key@ == k0);
                    assert forall|p: int| 0 <= p < newc.entries@.len() implies
                        #[trigger] newc.entries@[p].key@ == prev.entries@[p].key@ by {}
                    assert(newc.wf());
                    Self::lemma_view_after_update(prev, newc, i as int, k0, v0);
                }
                return ;
            }
            i = i + 1;
        }
        let ghost prev = *self;
        let ghost e = entry;
        self.entries.push(entry);
        proof {
            let newc = *self;
            assert(newc.entries@ =~= prev.entries@.push(e));
            let n = prev.entries@.len() as int;
            assert forall|p: int, q: int|
                0 <= p < q < newc.entries@.len() implies newc.entries@[p].key@
                != newc.entries@[q].key@ by {
                if q < n {
                    assert(prev.entries@[p].key@ != prev.entries@[q].key@);
                } else {
                    assert(newc.entries@[q].key@ == k0);
                    assert(prev.entries@[p].key@ != k0);
                }
            }
            Self::lemma_view_after_update(prev, newc, n, k0, v0);
        }
    }

    /// If `newc` agrees with `prev` except that position `i` (possibly one
    /// past the end of `prev`) now holds key `k0` with value `v0`, and
    /// `prev` held `k0` nowhere else, then the view gained exactly that
    /// binding.
    proof fn lemma_view_after_update(
        prev: TableCache,
        newc: TableCache,
        i: int,
        k0: Seq<u8>,
        v0: Seq<Seq<u8>>,
    )
        requires
            prev.wf(),
            newc.wf(),
            0 <= i < newc.entries@.len(),
            newc.entries@.len() == if i < prev.entries@.len() {
                prev.entries@.len()
            } else {
                prev.entries@.len() + 1
            },
            forall|p: int|
                0 <= p < newc.entries@.len() && p != i ==> newc.entries@[p]
                    == prev.entries@[p],
            newc.entries@[i].key@ == k0,
            newc.entries@[i].addresses@.map_values(|a: Address| a@) == v0,
            forall|p: int| 0 <= p < prev.entries@.len() && p != i ==> prev.entries@[p].key@ != k0,
            i < prev.entries@.len() ==> prev.entries@[i].key@ == k0,
        ensures
            newc@ =~= prev@.insert(k0, v0),
    {
        assert forall|k: Seq<u8>| #[trigger] newc@.contains_key(k) implies prev@.insert(
            k0,
            v0,
        ).contains_key(k) by {
            let j = choose|j: int| 0 <= j < newc.entries@.len() && newc.entries@[j].key@ == k;
            if j != i {
                assert(prev.entries@[j].key@ == k);
            }
        }
        assert forall|k: Seq<u8>| #[trigger] prev@.insert(k0, v0).contains_key(k) implies
            newc@.contains_key(k) by {
            if k == k0 {
                assert(newc.entries@[i].key@ == k);
            } else {
                let j = choose|j: int| 0 <= j < prev.entries@.len() && prev.entries@[j].key@ == k;
                assert(newc.entries@[j].key@ == k);
            }
        }
        assert forall|k: Seq<u8>| #[trigger] newc@.contains_key(k) implies newc@[k]
            == prev@.insert(k0, v0)[k] by {
            let j = choose|j: int| 0 <= j < newc.entries@.len() && newc.entries@[j].key@ == k;
            Self::lemma_at(newc, j);
            if j == i {
                assert(k == k0);
            } else {
                assert(prev.entries@[j].key@ == k);
                assert(k != k0);
                Self::lemma_at(prev, j);
            }
        }
    }

    /// Replaces the whole cache with the outcome of one refresh pass: the
    /// fetched tables are inserted and every table whose key was not
    /// fetched is removed (a closed table disappears by absence).
    pub fn apply_refresh(&mut self, fetched: Vec<TableEntry>)
        requires
            old(self).wf(),
        ensures
            final(self).wf(),
            final(self)@ == entries_map(fetched@),
    {
        let mut fresh = TableCache::new();
        let mut fetched = fetched;
        let n = fetched.len();
        let ghost all = fetched@;
        let mut i: usize = 0;
        // consume the fetched list from the front
        while i < n
            invariant
                fresh.wf(),
                n == all.len(),
                i <= n,
                fetched@ == all.skip(i as int),
                fresh@ == entries_map(all.take(i as int)),
            decreases n - i,
        {
            let entry = fetched.remove(0);
            proof {
                assert(entry == all[i as int]);
                assert(fetched@ =~= all.skip(i + 1));
                assert(all.take(i + 1).drop_last() =~= all.take(i as int));
                assert(all.take(i + 1).last() == all[i as int]);
            }
            fresh.upsert(entry);
            i = i + 1;
        }
        proof {
            assert(all.take(n as int) =~= all);
        }
        *self = fresh;
    }
}

/// True iff one of the transaction's static account keys is denied.
pub open spec fn spec_denied_in_static_keys(tx: TxView, denied: Set<Seq<u8>>) -> bool {
    exists|i: int|
        0 <= i < tx.static_account_keys.len() && denied.contains(
            #[trigger] tx.static_account_keys[i],
        )
}

/// True iff the given table reference resolves, through the cache, to a
/// denied address at one of its referenced indexes.
pub open spec fn spec_lookup_hits(
    lu: LookupView,
    cache: Map<Seq<u8>, Seq<Seq<u8>>>,
    denied: Set<Seq<u8>>,
) -> bool {
    cache.contains_key(lu.table_key) && exists|j: int|
        0 <= j < lu.referenced_indexes().len() && (#[trigger] lu.referenced_indexes()[j])
            < cache[lu.table_key].len() && denied.contains(
            cache[lu.table_key][lu.referenced_indexes()[j] as int],
        )
}

/// True iff some table reference of the transaction resolves to a denied
/// address.
pub open spec fn spec_denied_in_lookups(
    tx: TxView,
    cache: Map<Seq<u8>, Seq<Seq<u8>>>,
    denied: Set<Seq<u8>>,
) -> bool {
    exists|i: int|
        0 <= i < tx.address_table_lookups.len() && spec_lookup_hits(
            #[trigger] tx.address_table_lookups[i],
            cache,
            denied,
        )
}

/// True iff the transaction involves a denied address at all.
pub open spec fn spec_tx_denied(
    tx: TxView,
    cache: Map<Seq<u8>, Seq<Seq<u8>>>,
    denied: Set<Seq<u8>>,
) -> bool {
    spec_denied_in_static_keys(tx, denied) || spec_denied_in_lookups(tx, cache, denied)
}

/// Checks the transaction's static account keys against the denied set.
pub fn is_ofac_address_in_static_keys(tx: &Transaction, ofac_addresses: &AddressSet) -> (r:
    bool)
    ensures
        r == spec_denied_in_static_keys(tx@, ofac_addresses@),
{
    let mut i: usize = 0;
    while i < tx.static_account_keys.len()
        invariant
            i <= tx.static_account_keys@.len(),
            forall|j: int|
                0 <= j < i ==> !ofac_addresses@.contains(
                    #[trigger] tx@.static_account_keys[j],
                ),
        decreases tx.static_account_keys@.len() - i,
    {
        if ofac_addresses.contains(&tx.static_account_keys[i]) {
            proof {
                assert(tx@.static_account_keys[i as int] == tx.static_account_keys@[i as int]@);
            }
            return true;
        }
        i = i + 1;
    }
    false
}

/// Checks one index list of a table reference against a resolved table.
fn indexes_hit(indexes: &Vec<u8>, table: &Vec<Address>, ofac_addresses: &AddressSet) -> (r:
    bool)
    ensures
        r == exists|j: int|
            0 <= j < indexes@.len() && (#[trigger] indexes@[j]) < table@.len()
                && ofac_addresses@.contains(table@[indexes@[j] as int]@),
{
    let mut j: usize = 0;
    while j < indexes.len()
        invariant
            j <= indexes@.len(),
            forall|k: int|
                0 <= k < j ==> !((#[trigger] indexes@[k]) < table@.len()
                    && ofac_addresses@.contains(table@[indexes@[k] as int]@)),
        decreases indexes@.len() - j,
    {
        let idx = indexes[j] as usize;
        if idx < table.len() {
            if ofac_addresses.contains(&table[idx]) {
                return true;
            }
        }
        j = j + 1;
    }
    false
}

/// Checks the transaction's table references against the denied set,
/// resolving each through the cache.  A reference to a table that is not
/// in the cache contributes no match.
pub fn is_ofac_address_in_lookup_table(
    tx: &Transaction,
    ofac_addresses: &AddressSet,
    address_lookup_table_cache: &TableCache,
) -> (r: bool)
    requires
        address_lookup_table_cache.wf(),
    ensures
        r == spec_denied_in_lookups(tx@, address_lookup_table_cache@, ofac_addresses@),
{
    let mut i: usize = 0;
    while i < tx.address_table_lookups.len()
        invariant
            address_lookup_table_cache.wf(),
            i <= tx.address_table_lookups@.len(),
            forall|j: int|
                0 <= j < i ==> !spec_lookup_hits(
                    #[trigger] tx@.address_table_lookups[j],
                    address_lookup_table_cache@,
                    ofac_addresses@,
                ),
        decreases tx.address_table_lookups@.len() - i,
    {
        let lu = &tx.address_table_lookups[i];
        let ghost luv = tx@.address_table_lookups[i as int];
        proof {
            assert(luv == lu@);
        }
        match address_lookup_table_cache.get(&lu.table_key) {
            Some(table) => {
                let ghost tview = address_lookup_table_cache@[lu.table_key@];
                proof {
                    assert(table@.len() == tview.len());
                    assert(forall|k: int|
                        0 <= k < table@.len() ==> (#[trigger] table@[k])@ == tview[k]);
                }
                let wr = indexes_hit(&lu.writable_indexes, table, ofac_addresses);
                let ro = indexes_hit(&lu.readonly_indexes, table, ofac_addresses);
                proof {
                    lemma_indexes_split(luv, tview, ofac_addresses@);
                }
                if wr || ro {
                    return true;
                }
            },
            None => {},
        }
        i = i + 1;
    }
    false
}

/// A hit among the referenced indexes is a hit in the writable list or in
/// the readonly list.
proof fn lemma_indexes_split(lu: LookupView, table: Seq<Seq<u8>>, denied: Set<Seq<u8>>)
    ensures
        (exists|j: int|
            0 <= j < lu.referenced_indexes().len() && (#[trigger] lu.referenced_indexes()[j])
                < table.len() && denied.contains(
                table[lu.referenced_indexes()[j] as int],
            )) <==> ((exists|j: int|
            0 <= j < lu.writable_indexes.len() && (#[trigger] lu.writable_indexes[j])
                < table.len() && denied.contains(table[lu.writable_indexes[j] as int]))
            || (exists|j: int|
            0 <= j < lu.readonly_indexes.len() && (#[trigger] lu.readonly_indexes[j])
                < table.len() && denied.contains(table[lu.readonly_indexes[j] as int]))),
{
    let refs = lu.referenced_indexes();
    let w = lu.writable_indexes;
    let r = lu.readonly_indexes;
    assert(refs.len() == w.len() + r.len());
    if exists|j: int|
        0 <= j < refs.len() && (#[trigger] refs[j]) < table.len() && denied.contains(
            table[refs[j] as int],
        ) {
        let j = choose|j: int|
            0 <= j < refs.len() && (#[trigger] refs[j]) < table.len() && denied.contains(
                table[refs[j] as int],
            );
        if j < w.len() {
            assert(w[j] == refs[j]);
        } else {
            assert(r[j - w.len()] == refs[j]);
        }
    }
    if exists|j: int|
        0 <= j < w.len() && (#[trigger] w[j]) < table.len() && denied.contains(
            table[w[j] as int],
        ) {
        let j = choose|j: int|
            0 <= j < w.len() && (#[trigger] w[j]) < table.len() && denied.contains(
                table[w[j] as int],
            );
        assert(refs[j] == w[j]);
    }
    if exists|j: int|
        0 <= j < r.len() && (#[trigger] r[j]) < table.len() && denied.contains(
            table[r[j] as int],
        ) {
        let j = choose|j: int|
            0 <= j < r.len() && (#[trigger] r[j]) < table.len() && denied.contains(
                table[r[j] as int],
            );
        assert(refs[j + w.len()] == r[j]);
    }
}

/// Decides whether the transaction involves a denied address, directly or
/// through an address-table lookup.
pub fn is_tx_ofac_related(
    tx: &Transaction,
    ofac_addresses: &AddressSet,
    address_lookup_table_cache: &TableCache,
) -> (r: bool)
    requires
        address_lookup_table_cache.wf(),
    ensures
        r == spec_tx_denied(tx@, address_lookup_table_cache@, ofac_addresses@),
{
    is_ofac_address_in_static_keys(tx, ofac_addresses) || is_ofac_address_in_lookup_table(
        tx,
        ofac_addresses,
        address_lookup_table_cache,
    )
}

/// Clones a list of addresses, keeping its contents.
pub fn clone_addresses(v: &Vec<Address>) -> (r: Vec<Address>)
    ensures
        r@.map_values(|a: Address| a@) == v@.map_values(|a: Address| a@),
{
    let mut r: Vec<Address> = Vec::new();
    let mut i: usize = 0;
    while i < v.len()
        invariant
            i <= v@.len(),
            r@.len() == i,
            forall|j: int| 0 <= j < i ==> (#[trigger] r@[j])@ == v@[j]@,
        decreases v@.len() - i,
    {
        r.push(v[i].clone());
        i = i + 1;
    }
    proof {
        assert(r@.map_values(|a: Address| a@) =~= v@.map_values(|a: Address| a@));
    }
    r
}

impl Clone for TableLookup {
    fn clone(&self) -> (r: Self)
        ensures
            r@ == self@,
    {
        TableLookup {
            table_key: self.table_key.clone(),
            writable_indexes: crate::addr::clone_bytes(&self.writable_indexes),
            readonly_indexes: crate::addr::clone_bytes(&self.readonly_indexes),
        }
    }
}

impl Clone for Transaction {
    fn clone(&self) -> (r: Self)
        ensures
            r@ == self@,
    {
        let mut lookups: Vec<TableLookup> = Vec::new();
        let mut i: usize = 0;
        while i < self.address_table_lookups.len()
            invariant
                i <= self.address_table_lookups@.len(),
                lookups@.len() == i,
                forall|j: int|
                    0 <= j < i ==> (#[trigger] lookups@[j])@ == self.address_table_lookups@[j]@,
            decreases self.address_table_lookups@.len() - i,
        {
            lookups.push(self.address_table_lookups[i].clone());
            i = i + 1;
        }
        let r = Transaction {
            static_account_keys: clone_addresses(&self.static_account_keys),
            address_table_lookups: lookups,
        };
        proof {
            assert(r@.static_account_keys =~= self@.static_account_keys);
            assert(r@.address_table_lookups =~= self@.address_table_lookups);
        }
        r
    }
}

/// A table reference whose table is absent from the cache contributes no
/// match: a transaction touching a denied address only through an absent
/// table passes the filter.
pub proof fn lemma_absent_table_no_match(
    lu: LookupView,
    cache: Map<Seq<u8>, Seq<Seq<u8>>>,
    denied: Set<Seq<u8>>,
)
    requires
        !cache.contains_key(lu.table_key),
    ensures
        !spec_lookup_hits(lu, cache, denied),
{
}

} // verus!
