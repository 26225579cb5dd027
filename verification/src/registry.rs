use vstd::prelude::*;
use crate::asset::{
    duplicate_pair, encodable, lemma_pair_key_injective, pair_key, pair_view, spec_pair_key,
    AssetInfo, AssetSpec,
};
use crate::bytes::{
    bytes_clone, bytes_eq, bytes_lt, lemma_lex_lt_asymmetric, lemma_lex_lt_irreflexive,
    lemma_lex_lt_total, lemma_lex_lt_transitive, lex_lt,
};
use crate::error::ContractError;

verus! {

/// Page size of a listing that names none, and the largest it may name.
pub const PAGE_LIMIT: u32 = 10;

/// What a pair record is.
pub struct PairSpec {
    pub asset_infos: (AssetSpec, AssetSpec),
    pub contract_addr: Option<Seq<u8>>,
    pub liquidity_token: Option<Seq<u8>>,
}

/// The record of one pair: its two asset descriptors, in the order of its
/// creation, the address of the pair instance and that of its
/// liquidity-receipt token. Both addresses are `None` while the pair is
/// pending and `Some` once it is registered.
#[derive(Clone, Debug, PartialEq, Eq)]
pub struct PairInfo {
    pub asset_infos: [AssetInfo; 2],
    pub contract_addr: Option<Vec<u8>>,
    pub liquidity_token: Option<Vec<u8>>,
}

/// The view of an address that may be unset.
pub open spec fn address_view(a: Option<Vec<u8>>) -> Option<Seq<u8>> {
    match a {
        Some(v) => Some(v@),
        None => None,
    }
}

impl View for PairInfo {
    type V = PairSpec;

    open spec fn view(&self) -> PairSpec {
        PairSpec {
            asset_infos: pair_view(self.asset_infos),
            contract_addr: address_view(self.contract_addr),
            liquidity_token: address_view(self.liquidity_token),
        }
    }
}

fn address_clone(a: &Option<Vec<u8>>) -> (r: Option<Vec<u8>>)
    ensures
        address_view(r) == address_view(*a),
{
    match a {
        Some(v) => Some(bytes_clone(v)),
        None => None,
    }
}

impl PairInfo {
    /// A copy of this record.
    pub fn duplicate(&self) -> (r: PairInfo)
        ensures
            r@ == self@,
    {
        PairInfo {
            asset_infos: duplicate_pair(&self.asset_infos),
            contract_addr: address_clone(&self.contract_addr),
            liquidity_token: address_clone(&self.liquidity_token),
        }
    }

    /// Whether the pair's addresses have been filled in.
    pub fn is_registered(&self) -> (r: bool)
        ensures
            r == self@.contract_addr.is_some(),
    {
        self.contract_addr.is_some()
    }
}

/// The record that a creation request writes: both addresses unset.
pub open spec fn pending(pair: (AssetSpec, AssetSpec)) -> PairSpec {
    PairSpec { asset_infos: pair, contract_addr: None, liquidity_token: None }
}

/// The record that the completion callback leaves.
pub open spec fn registered(
    pair: (AssetSpec, AssetSpec),
    contract_addr: Seq<u8>,
    liquidity_token: Seq<u8>,
) -> PairSpec {
    PairSpec {
        asset_infos: pair,
        contract_addr: Some(contract_addr),
        liquidity_token: Some(liquidity_token),
    }
}

/// The key under which a record is held.
pub open spec fn key_of(r: PairSpec) -> Seq<u8> {
    spec_pair_key(r.asset_infos)
}

/// A record whose descriptors can be encoded and whose two addresses are
/// set together or not at all.
pub open spec fn valid_record(r: PairSpec) -> bool {
    &&& encodable(r.asset_infos.0)
    &&& encodable(r.asset_infos.1)
    &&& r.contract_addr.is_some() == r.liquidity_token.is_some()
}

/// Records in strictly ascending order of their keys, each of them valid.
pub open spec fn well_formed(recs: Seq<PairSpec>) -> bool {
    &&& forall|i: int| 0 <= i < recs.len() ==> valid_record(#[trigger] recs[i])
    &&& forall|i: int, j: int|
        #![trigger recs[i], recs[j]]
        0 <= i < j < recs.len() ==> lex_lt(key_of(recs[i]), key_of(recs[j]))
}

/// Whether a record for the ordered pair is among `recs`.
pub open spec fn recorded(recs: Seq<PairSpec>, pair: (AssetSpec, AssetSpec)) -> bool {
    exists|i: int| 0 <= i < recs.len() && (#[trigger] recs[i]).asset_infos == pair
}

/// The place of the ordered pair's record among `recs`, where it has one.
pub open spec fn position(recs: Seq<PairSpec>, pair: (AssetSpec, AssetSpec)) -> int {
    choose|i: int| 0 <= i < recs.len() && (#[trigger] recs[i]).asset_infos == pair
}

/// The ordered pair's record among `recs`, where it has one.
pub open spec fn lookup(recs: Seq<PairSpec>, pair: (AssetSpec, AssetSpec)) -> PairSpec {
    recs[position(recs, pair)]
}

/// Whether place `i` is where a record with the key `key` belongs: the
/// records before it have smaller keys, those from it on have greater ones.
pub open spec fn belongs_at(recs: Seq<PairSpec>, key: Seq<u8>, i: int) -> bool {
    &&& 0 <= i <= recs.len()
    &&& forall|j: int| 0 <= j < i ==> lex_lt(key_of(#[trigger] recs[j]), key)
    &&& forall|j: int| i <= j < recs.len() ==> lex_lt(key, key_of(#[trigger] recs[j]))
}

/// The place at which the record of an ordered pair that has none yet
/// belongs.
pub open spec fn place_of(recs: Seq<PairSpec>, pair: (AssetSpec, AssetSpec)) -> int {
    choose|i: int| belongs_at(recs, spec_pair_key(pair), i)
}

/// Whether a page that follows `after` starts at place `s`: the records
/// before `s` have keys up to that of `after`, those from `s` on have greater
/// keys. With no `after` the page starts at the first record.
pub open spec fn page_start(
    recs: Seq<PairSpec>,
    after: Option<(AssetSpec, AssetSpec)>,
    s: int,
) -> bool {
    match after {
        None => s == 0,
        Some(pair) => {
            &&& 0 <= s <= recs.len()
            &&& forall|j: int|
                0 <= j < s ==> !lex_lt(spec_pair_key(pair), key_of(#[trigger] recs[j]))
            &&& forall|j: int|
                s <= j < recs.len() ==> lex_lt(spec_pair_key(pair), key_of(#[trigger] recs[j]))
        },
    }
}

/// The number of records on a page: what was asked for, at most
/// `PAGE_LIMIT`, and `PAGE_LIMIT` where nothing was asked for.
pub open spec fn page_size(limit: Option<u32>) -> int {
    match limit {
        Some(l) => if l < PAGE_LIMIT {
            l as int
        } else {
            PAGE_LIMIT as int
        },
        None => PAGE_LIMIT as int,
    }
}

/// The page of at most `size` records that starts at place `s`.
pub open spec fn page_at(recs: Seq<PairSpec>, s: int, size: int) -> Seq<PairSpec> {
    if s + size <= recs.len() {
        recs.subrange(s, s + size)
    } else {
        recs.subrange(s, recs.len() as int)
    }
}

/// The page that a listing returns: from the place at which the page
/// after `after` starts, `page_size(limit)` records or as many as are left.
pub open spec fn page_after(
    recs: Seq<PairSpec>,
    after: Option<(AssetSpec, AssetSpec)>,
    limit: Option<u32>,
) -> Seq<PairSpec> {
    page_at(recs, choose|s: int| page_start(recs, after, s), page_size(limit))
}

/// The views of a sequence of records.
pub open spec fn views(page: Seq<PairInfo>) -> Seq<PairSpec> {
    page.map_values(|p: PairInfo| p@)
}

/// Well-formed records hold one record at most for an ordered pair: the
/// place of a record with the pair's descriptors is the pair's place.
pub proof fn lemma_position_unique(recs: Seq<PairSpec>, pair: (AssetSpec, AssetSpec), i: int)
    requires
        well_formed(recs),
        0 <= i < recs.len(),
        recs[i].asset_infos == pair,
    ensures
        recorded(recs, pair),
        position(recs, pair) == i,
        lookup(recs, pair) == recs[i],
{
    let p = position(recs, pair);
    lemma_lex_lt_irreflexive(key_of(recs[i]));
    if p < i {
        assert(lex_lt(key_of(recs[p]), key_of(recs[i])));
    } else if i < p {
        assert(lex_lt(key_of(recs[i]), key_of(recs[p])));
    }
}

/// A record's place in ascending key order decides whether the registry
/// holds the pair: it does exactly if the first record whose key is not
/// smaller has the pair's key, and that record is then the pair's.
pub proof fn lemma_place_decides(recs: Seq<PairSpec>, pair: (AssetSpec, AssetSpec), i: int)
    requires
        well_formed(recs),
        encodable(pair.0),
        encodable(pair.1),
        0 <= i <= recs.len(),
        forall|j: int| 0 <= j < i ==> lex_lt(key_of(#[trigger] recs[j]), spec_pair_key(pair)),
        i < recs.len() ==> !lex_lt(key_of(recs[i]), spec_pair_key(pair)),
    ensures
        recorded(recs, pair) <==> (i < recs.len() && key_of(recs[i]) == spec_pair_key(pair)),
        recorded(recs, pair) ==> position(recs, pair) == i && recs[i].asset_infos == pair,
{
    let key = spec_pair_key(pair);
    if i < recs.len() && key_of(recs[i]) == key {
        lemma_pair_key_injective(recs[i].asset_infos, pair);
        assert(recorded(recs, pair));
    }
    if recorded(recs, pair) {
        let p = position(recs, pair);
        assert(key_of(recs[p]) == key);
        lemma_lex_lt_irreflexive(key);
        if p > i {
            assert(lex_lt(key_of(recs[i]), key_of(recs[p])));
        }
    }
}

/// Where the first record whose key is not smaller than `key` has another
/// key, a record with `key` belongs at its place.
pub proof fn lemma_first_not_smaller_is_place(recs: Seq<PairSpec>, key: Seq<u8>, i: int)
    requires
        well_formed(recs),
        0 <= i <= recs.len(),
        forall|j: int| 0 <= j < i ==> lex_lt(key_of(#[trigger] recs[j]), key),
        i < recs.len() ==> !lex_lt(key_of(recs[i]), key),
        i < recs.len() ==> key_of(recs[i]) != key,
    ensures
        belongs_at(recs, key, i),
{
    assert forall|j: int| i <= j < recs.len() implies lex_lt(key, key_of(#[trigger] recs[j])) by {
        lemma_lex_lt_total(key_of(recs[i]), key);
        if j > i {
            assert(lex_lt(key_of(recs[i]), key_of(recs[j])));
            lemma_lex_lt_transitive(key, key_of(recs[i]), key_of(recs[j]));
        }
    }
}

/// A record belongs at one place only.
pub proof fn lemma_place_unique(recs: Seq<PairSpec>, key: Seq<u8>, i: int, j: int)
    requires
        belongs_at(recs, key, i),
        belongs_at(recs, key, j),
    ensures
        i == j,
{
    if i < j {
        assert(lex_lt(key, key_of(recs[i])));
        lemma_lex_lt_asymmetric(key, key_of(recs[i]));
    } else if j < i {
        assert(lex_lt(key, key_of(recs[j])));
        lemma_lex_lt_asymmetric(key, key_of(recs[j]));
    }
}

/// A record put where it belongs leaves the records well formed.
pub proof fn lemma_insert_well_formed(recs: Seq<PairSpec>, rec: PairSpec, i: int)
    requires
        well_formed(recs),
        valid_record(rec),
        belongs_at(recs, key_of(rec), i),
    ensures
        well_formed(recs.insert(i, rec)),
{
    let out = recs.insert(i, rec);
    assert forall|a: int, b: int| 0 <= a < b < out.len() implies lex_lt(
        key_of(out[a]),
        key_of(out[b]),
    ) by {
        if b < i {
            assert(out[a] == recs[a] && out[b] == recs[b]);
        } else if b == i {
            assert(out[a] == recs[a]);
        } else if a < i {
            assert(out[a] == recs[a] && out[b] == recs[b - 1]);
            lemma_lex_lt_transitive(key_of(recs[a]), key_of(rec), key_of(recs[b - 1]));
        } else if a == i {
            assert(out[b] == recs[b - 1]);
        } else {
            assert(out[a] == recs[a - 1] && out[b] == recs[b - 1]);
        }
    }
    assert forall|j: int| 0 <= j < out.len() implies valid_record(#[trigger] out[j]) by {
        if j < i {
            assert(out[j] == recs[j]);
        } else if j > i {
            assert(out[j] == recs[j - 1]);
        }
    }
}

/// A page starts at one place only.
pub proof fn lemma_page_start_unique(
    recs: Seq<PairSpec>,
    after: Option<(AssetSpec, AssetSpec)>,
    s: int,
    t: int,
)
    requires
        page_start(recs, after, s),
        page_start(recs, after, t),
    ensures
        s == t,
{
    if after.is_some() {
        if s < t {
            assert(lex_lt(spec_pair_key(after.unwrap()), key_of(recs[s])));
        } else if t < s {
            assert(lex_lt(spec_pair_key(after.unwrap()), key_of(recs[t])));
        }
    }
}

/// A listing returns the page at the place where the page starts.
pub proof fn lemma_page_after_is_page_at(
    recs: Seq<PairSpec>,
    after: Option<(AssetSpec, AssetSpec)>,
    limit: Option<u32>,
    s: int,
)
    requires
        page_start(recs, after, s),
    ensures
        page_after(recs, after, limit) == page_at(recs, s, page_size(limit)),
{
    let t = choose|t: int| page_start(recs, after, t);
    lemma_page_start_unique(recs, after, s, t);
}

/// Paging leaves no gap and repeats nothing: the page that follows the
/// record at place `e - 1` starts at place `e`. So a reader who asks for
/// the page after the last record of the page before visits every record
/// once, in ascending key order.
pub proof fn lemma_next_page_follows(recs: Seq<PairSpec>, e: int)
    requires
        well_formed(recs),
        0 < e <= recs.len(),
    ensures
        page_start(recs, Some(recs[e - 1].asset_infos), e),
{
    let key = key_of(recs[e - 1]);
    assert forall|j: int| 0 <= j < e implies !lex_lt(key, key_of(#[trigger] recs[j])) by {
        if j < e - 1 {
            assert(lex_lt(key_of(recs[j]), key_of(recs[e - 1])));
            lemma_lex_lt_asymmetric(key_of(recs[j]), key);
        } else {
            lemma_lex_lt_irreflexive(key);
        }
    }
    assert forall|j: int| e <= j < recs.len() implies lex_lt(key, key_of(#[trigger] recs[j])) by {
        assert(lex_lt(key_of(recs[e - 1]), key_of(recs[j])));
    }
}

/// Paging is restartable: where a page is not empty, the listing after
/// its last record returns the records that follow the page, so that a
/// reader who goes on in this way sees every record once, in ascending key
/// order.
pub proof fn lemma_paging_continues(
    recs: Seq<PairSpec>,
    after: Option<(AssetSpec, AssetSpec)>,
    limit: Option<u32>,
    next_limit: Option<u32>,
    s: int,
)
    requires
        well_formed(recs),
        page_start(recs, after, s),
        0 <= s,
        page_at(recs, s, page_size(limit)).len() > 0,
    ensures
        page_after(recs, after, limit) == page_at(recs, s, page_size(limit)),
        page_after(recs, Some(page_at(recs, s, page_size(limit)).last().asset_infos), next_limit)
            == page_at(recs, s + page_at(recs, s, page_size(limit)).len(), page_size(next_limit)),
{
    let page = page_at(recs, s, page_size(limit));
    let e = s + page.len();
    lemma_page_after_is_page_at(recs, after, limit, s);
    assert(page.last() == recs[e - 1]);
    lemma_next_page_follows(recs, e);
    lemma_page_after_is_page_at(recs, Some(recs[e - 1].asset_infos), next_limit, e);
}

struct Entry {
    key: Vec<u8>,
    info: PairInfo,
}

/// The pair registry: one record for each ordered pair of assets, held in
/// ascending order of the pairs' keys.
pub struct Registry {
    entries: Vec<Entry>,
}

impl Registry {
    /// The records, in ascending order of their keys.
    pub closed spec fn records(&self) -> Seq<PairSpec> {
        Seq::new(self.entries@.len(), |i: int| self.entries@[i].info@)
    }

    /// Each record is held beside the key derived from its descriptors.
    pub closed spec fn keys_match(&self) -> bool {
        forall|i: int|
            0 <= i < self.entries@.len() ==> (#[trigger] self.entries@[i]).key@ == key_of(
                self.entries@[i].info@,
            )
    }

    /// The registry's invariant. It holds of every registry.
    #[verifier::type_invariant]
    pub open spec fn wf(&self) -> bool {
        self.keys_match() && well_formed(self.records())
    }

    /// A registry without records.
    pub fn new() -> (r: Registry)
        ensures
            r.wf(),
            r.records() == Seq::<PairSpec>::empty(),
    {
        let r = Registry { entries: Vec::new() };
        assert(r.records() =~= Seq::<PairSpec>::empty());
        r
    }

    /// The number of records.
    pub fn len(&self) -> (n: usize)
        ensures
            n == self.records().len(),
    {
        self.entries.len()
    }

    /// The place of the first record whose key is not smaller than `key`,
    /// and whether that record has the key itself.
    fn locate(&self, key: &Vec<u8>) -> (r: (usize, bool))
        requires
            self.wf(),
        ensures
            r.0 <= self.records().len(),
            self.records().len() == self.entries@.len(),
            forall|j: int| 0 <= j < r.0 ==> lex_lt(key_of(#[trigger] self.records()[j]), key@),
            r.0 < self.records().len() ==> !lex_lt(key_of(self.records()[r.0 as int]), key@),
            r.1 == (r.0 < self.records().len() && key_of(self.records()[r.0 as int]) == key@),
    {
        let mut lo: usize = 0;
        let mut hi: usize = self.entries.len();
        while lo < hi
            invariant
                self.wf(),
                lo <= hi <= self.entries@.len(),
                self.records().len() == self.entries@.len(),
                forall|j: int| 0 <= j < lo ==> lex_lt(key_of(#[trigger] self.records()[j]), key@),
                forall|j: int|
                    hi <= j < self.records().len() ==> !lex_lt(
                        key_of(#[trigger] self.records()[j]),
                        key@,
                    ),
            decreases hi - lo,
        {
            let mid = lo + (hi - lo) / 2;
            let ghost recs = self.records();
            assert(self.entries@[mid as int].key@ == key_of(recs[mid as int]));
            if bytes_lt(&self.entries[mid].key, key) {
                assert forall|j: int| 0 <= j < mid + 1 implies lex_lt(
                    key_of(#[trigger] recs[j]),
                    key@,
                ) by {
                    if j < mid {
                        assert(lex_lt(key_of(recs[j]), key_of(recs[mid as int])));
                        lemma_lex_lt_transitive(key_of(recs[j]), key_of(recs[mid as int]), key@);
                    }
                }
                lo = mid + 1;
            } else {
                assert forall|j: int| mid <= j < recs.len() implies !lex_lt(
                    key_of(#[trigger] recs[j]),
                    key@,
                ) by {
                    if j > mid && lex_lt(key_of(recs[j]), key@) {
                        assert(lex_lt(key_of(recs[mid as int]), key_of(recs[j])));
                        lemma_lex_lt_transitive(key_of(recs[mid as int]), key_of(recs[j]), key@);
                    }
                }
                hi = mid;
            }
        }
        if lo < self.entries.len() {
            assert(self.entries@[lo as int].key@ == key_of(self.records()[lo as int]));
            let same = bytes_eq(&self.entries[lo].key, key);
            (lo, same)
        } else {
            (lo, false)
        }
    }

    /// Whether a record exists for the ordered pair.
    pub fn contains(&self, asset_infos: &[AssetInfo; 2]) -> (r: bool)
        ensures
            r == recorded(self.records(), pair_view(*asset_infos)),
    {
        proof {
            use_type_invariant(self);
        }
        let key = pair_key(asset_infos);
        let (i, found) = self.locate(&key);
        proof {
            lemma_place_decides(self.records(), pair_view(*asset_infos), i as int);
        }
        found
    }

    /// Writes a pending record for the ordered pair, unless one exists.
    pub fn insert_pending(&mut self, asset_infos: [AssetInfo; 2]) -> (r: Result<
        (),
        ContractError,
    >)
        ensures
            final(self).wf(),
            recorded(old(self).records(), pair_view(asset_infos)) ==> r == Err::<(), ContractError>(
                ContractError::PairAlreadyExists,
            ) && final(self).records() == old(self).records(),
            !recorded(old(self).records(), pair_view(asset_infos)) ==> r.is_ok() && recorded(
                final(self).records(),
                pair_view(asset_infos),
            ) && belongs_at(
                old(self).records(),
                spec_pair_key(pair_view(asset_infos)),
                place_of(old(self).records(), pair_view(asset_infos)),
            ) && final(self).records() == old(self).records().insert(
                place_of(old(self).records(), pair_view(asset_infos)),
                pending(pair_view(asset_infos)),
            ),
    {
        proof {
            use_type_invariant(&*self);
        }
        let key = pair_key(&asset_infos);
        let (i, found) = self.locate(&key);
        let ghost pair = pair_view(asset_infos);
        proof {
            lemma_place_decides(self.records(), pair, i as int);
        }
        if found {
            return Err(ContractError::PairAlreadyExists);
        }
        let entry = Entry {
            key,
            info: PairInfo { asset_infos, contract_addr: None, liquidity_token: None },
        };
        assert(entry.info@ == pending(pair));
        let mut entries: Vec<Entry> = Vec::new();
        core::mem::swap(&mut self.entries, &mut entries);
        entries.insert(i, entry);
        proof {
            let after = Registry { entries };
            let before = old(self).records();
            assert(after.records() =~= before.insert(i as int, pending(pair)));
            assert(after.records()[i as int].asset_infos == pair);
            lemma_first_not_smaller_is_place(before, key_of(pending(pair)), i as int);
            lemma_place_unique(before, key_of(pending(pair)), i as int, place_of(before, pair));
            lemma_insert_well_formed(before, pending(pair), i as int);
            assert forall|j: int| 0 <= j < entries@.len() implies (#[trigger] entries@[j]).key@
                == key_of(entries@[j].info@) by {
                if j < i {
                    assert(entries@[j] == old(self).entries@[j]);
                } else if j > i {
                    assert(entries@[j] == old(self).entries@[j - 1]);
                }
            }
        }
        self.entries = entries;
        Ok(())
    }

    /// Fills in the addresses of the ordered pair's pending record.
    pub fn complete(
        &mut self,
        asset_infos: &[AssetInfo; 2],
        contract_addr: Vec<u8>,
        liquidity_token: Vec<u8>,
    ) -> (r: Result<(), ContractError>)
        ensures
            final(self).wf(),
            r == complete_outcome(old(self).records(), pair_view(*asset_infos)),
            r.is_err() ==> final(self).records() == old(self).records(),
            r.is_ok() ==> final(self).records() == old(self).records().update(
                position(old(self).records(), pair_view(*asset_infos)),
                registered(pair_view(*asset_infos), contract_addr@, liquidity_token@),
            ),
    {
        proof {
            use_type_invariant(&*self);
        }
        let key = pair_key(asset_infos);
        let (i, found) = self.locate(&key);
        let ghost pair = pair_view(*asset_infos);
        let ghost before = self.records();
        proof {
            lemma_place_decides(before, pair, i as int);
        }
        if !found {
            return Err(ContractError::RecordNotFound);
        }
        if self.entries[i].info.is_registered() {
            return Err(ContractError::AlreadyRegistered);
        }
        let mut entries: Vec<Entry> = Vec::new();
        core::mem::swap(&mut self.entries, &mut entries);
        let mut entry = entries.remove(i);
        entry.info.contract_addr = Some(contract_addr);
        entry.info.liquidity_token = Some(liquidity_token);
        entries.insert(i, entry);
        proof {
            let rec = registered(pair, contract_addr@, liquidity_token@);
            let after = Registry { entries };
            assert(entries@ =~= old(self).entries@.update(i as int, entry));
            assert(after.records() =~= before.update(i as int, rec));
            assert(key_of(rec) == key_of(before[i as int]));
            assert forall|a: int, b: int| 0 <= a < b < after.records().len() implies lex_lt(
                key_of(after.records()[a]),
                key_of(after.records()[b]),
            ) by {
                assert(lex_lt(key_of(before[a]), key_of(before[b])));
            }
            assert forall|j: int| 0 <= j < after.records().len() implies valid_record(
                #[trigger] after.records()[j],
            ) by {
                assert(valid_record(before[j]));
            }
        }
        self.entries = entries;
        Ok(())
    }

    /// The ordered pair's record.
    pub fn get(&self, asset_infos: &[AssetInfo; 2]) -> (r: Result<PairInfo, ContractError>)
        ensures
            recorded(self.records(), pair_view(*asset_infos)) ==> r.is_ok() && r.unwrap()@
                == lookup(self.records(), pair_view(*asset_infos)),
            !recorded(self.records(), pair_view(*asset_infos)) ==> r.is_err() && r.unwrap_err()
                == ContractError::RecordNotFound,
    {
        proof {
            use_type_invariant(self);
        }
        let key = pair_key(asset_infos);
        let (i, found) = self.locate(&key);
        proof {
            lemma_place_decides(self.records(), pair_view(*asset_infos), i as int);
        }
        if found {
            Ok(self.entries[i].info.duplicate())
        } else {
            Err(ContractError::RecordNotFound)
        }
    }

    /// Copies of all records, in ascending key order.
    pub fn to_vec(&self) -> (all: Vec<PairInfo>)
        ensures
            views(all@) == self.records(),
    {
        let mut all: Vec<PairInfo> = Vec::new();
        let mut i: usize = 0;
        while i < self.entries.len()
            invariant
                i <= self.entries@.len(),
                self.records().len() == self.entries@.len(),
                views(all@) == self.records().take(i as int),
            decreases self.entries@.len() - i,
        {
            let ghost before = all@;
            let info = self.entries[i].info.duplicate();
            all.push(info);
            i += 1;
            assert(views(all@) =~= views(before).push(info@));
            assert(views(all@) =~= self.records().take(i as int));
        }
        assert(self.records().take(i as int) =~= self.records());
        all
    }

    /// One page of records in ascending key order: those after the record
    /// of `start_after`, or from the first record, at most
    /// `page_size(limit)` of them.
    pub fn list(&self, start_after: Option<&[AssetInfo; 2]>, limit: Option<u32>) -> (page: Vec<
        PairInfo,
    >)
        ensures
            views(page@) == page_after(self.records(), after_view(start_after), limit),
    {
        proof {
            use_type_invariant(self);
        }
        let size: u32 = match limit {
            Some(l) => if l < PAGE_LIMIT {
                l
            } else {
                PAGE_LIMIT
            },
            None => PAGE_LIMIT,
        };
        let start: usize = match start_after {
            None => 0,
            Some(pair) => {
                let key = pair_key(pair);
                let (i, found) = self.locate(&key);
                proof {
                    let recs = self.records();
                    let k = key@;
                    assert forall|j: int| 0 <= j < i implies !lex_lt(
                        k,
                        key_of(#[trigger] recs[j]),
                    ) by {
                        lemma_lex_lt_asymmetric(key_of(recs[j]), k);
                    }
                    lemma_lex_lt_irreflexive(k);
                    if found {
                        assert forall|j: int| i < j < recs.len() implies lex_lt(
                            k,
                            key_of(#[trigger] recs[j]),
                        ) by {
                            assert(lex_lt(key_of(recs[i as int]), key_of(recs[j])));
                        }
                    } else {
                        lemma_first_not_smaller_is_place(recs, k, i as int);
                    }
                }
                let n = self.entries.len();
                if found && i < n {
                    i + 1
                } else {
                    i
                }
            },
        };
        assert(page_start(self.records(), after_view(start_after), start as int));
        let mut page: Vec<PairInfo> = Vec::new();
        let mut i: usize = start;
        let mut taken: u32 = 0;
        while i < self.entries.len() && taken < size
            invariant
                start <= i <= self.entries@.len(),
                self.records().len() == self.entries@.len(),
                taken <= size,
                i == start + taken,
                views(page@) == self.records().subrange(start as int, i as int),
            decreases self.entries@.len() - i,
        {
            let ghost before = page@;
            let info = self.entries[i].info.duplicate();
            page.push(info);
            i += 1;
            taken += 1;
            assert(views(page@) =~= views(before).push(info@));
            assert(views(page@) =~= self.records().subrange(start as int, i as int));
        }
        assert(views(page@) == page_at(self.records(), start as int, page_size(limit)));
        proof {
            lemma_page_after_is_page_at(
                self.records(),
                after_view(start_after),
                limit,
                start as int,
            );
        }
        page
    }
}

/// The view of the pair after which a page starts.
pub open spec fn after_view(start_after: Option<&[AssetInfo; 2]>) -> Option<
    (AssetSpec, AssetSpec),
> {
    match start_after {
        Some(pair) => Some(pair_view(*pair)),
        None => None,
    }
}

/// What completing the ordered pair's registration returns: an error where
/// no record exists or its addresses are set, success otherwise.
pub open spec fn complete_outcome(recs: Seq<PairSpec>, pair: (AssetSpec, AssetSpec)) -> Result<
    (),
    ContractError,
> {
    if !recorded(recs, pair) {
        Err(ContractError::RecordNotFound)
    } else if lookup(recs, pair).contract_addr.is_some() {
        Err(ContractError::AlreadyRegistered)
    } else {
        Ok(())
    }
}

} // verus!
