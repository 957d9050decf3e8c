//! Cached reference prices per asset, refreshed from an outside price feed
//! keyed by the feed's own asset identifiers.
use crate::decimal::Dec;
use crate::text::str_eq;
use crate::types::AssetResponse;
use vstd::prelude::*;
use vstd::string::StringExecFns;

verus! {

/// The map that a list of keyed entries stands for: later entries win.
pub open spec fn map_of<V>(s: Seq<(String, V)>) -> Map<Seq<char>, V>
    decreases s.len(),
{
    if s.len() == 0 {
        Map::empty()
    } else {
        map_of(s.drop_last()).insert(s.last().0@, s.last().1)
    }
}

/// No two entries share a key.
pub open spec fn unique_keys<V>(s: Seq<(String, V)>) -> bool {
    forall|i: int, j: int| 0 <= i < j < s.len() ==> s[i].0@ != s[j].0@
}

/// With unique keys, an entry's key maps to its value, and a key that no entry
/// holds is not in the map.
pub proof fn lemma_map_of_lookup<V>(s: Seq<(String, V)>, k: Seq<char>)
    requires
        unique_keys(s),
    ensures
        (exists|i: int| 0 <= i < s.len() && s[i].0@ == k) <==> map_of(s).contains_key(k),
        forall|i: int| 0 <= i < s.len() && s[i].0@ == k ==> map_of(s)[k] == s[i].1,
    decreases s.len(),
{
    if s.len() > 0 {
        let t = s.drop_last();
        assert(unique_keys(t));
        lemma_map_of_lookup(t, k);
        if exists|i: int| 0 <= i < s.len() && s[i].0@ == k {
            let i = choose|i: int| 0 <= i < s.len() && s[i].0@ == k;
            if i < s.len() - 1 {
                assert(t[i].0@ == k);
            }
        }
        assert forall|i: int| 0 <= i < s.len() && s[i].0@ == k implies map_of(s)[k] == s[i].1 by {
            if i < s.len() - 1 {
                assert(t[i] == s[i]);
                assert(s.last().0@ != k);
            }
        }
        if map_of(s).contains_key(k) && s.last().0@ != k {
            let j = choose|j: int| 0 <= j < t.len() && t[j].0@ == k;
            assert(s[j].0@ == k);
        }
    }
}

/// Setting the value of an existing key, or appending a new key, is inserting
/// it into the map; the keys stay unique.
pub proof fn lemma_map_of_update<V>(s: Seq<(String, V)>, i: int, key: String, v: V)
    requires
        unique_keys(s),
        0 <= i < s.len(),
        s[i].0@ == key@,
    ensures
        unique_keys(s.update(i, (key, v))),
        map_of(s.update(i, (key, v))) =~= map_of(s).insert(key@, v),
{
    let u = s.update(i, (key, v));
    assert(unique_keys(u)) by {
        assert forall|a: int, b: int| 0 <= a < b < u.len() implies u[a].0@ != u[b].0@ by {
            assert(s[a].0@ != s[b].0@);
        }
    }
    assert forall|k: Seq<char>| #[trigger] map_of(u).contains_key(k) == map_of(s).insert(key@, v).contains_key(k)
        && (map_of(u).contains_key(k) ==> map_of(u)[k] == map_of(s).insert(key@, v)[k]) by {
        lemma_map_of_lookup(s, k);
        lemma_map_of_lookup(u, k);
        if k == key@ {
            assert(u[i].0@ == k);
        } else {
            if map_of(s).contains_key(k) {
                let j = choose|j: int| 0 <= j < s.len() && s[j].0@ == k;
                assert(u[j] == s[j]);
            }
            if map_of(u).contains_key(k) {
                let j = choose|j: int| 0 <= j < u.len() && u[j].0@ == k;
                assert(u[j] == s[j]);
            }
        }
    }
}

pub proof fn lemma_map_of_push<V>(s: Seq<(String, V)>, key: String, v: V)
    requires
        unique_keys(s),
        !map_of(s).contains_key(key@),
    ensures
        unique_keys(s.push((key, v))),
        map_of(s.push((key, v))) =~= map_of(s).insert(key@, v),
{
    let u = s.push((key, v));
    assert(u.drop_last() =~= s);
    assert(unique_keys(u)) by {
        assert forall|a: int, b: int| 0 <= a < b < u.len() implies u[a].0@ != u[b].0@ by {
            if b == s.len() {
                lemma_map_of_lookup(s, key@);
                assert(u[a] == s[a]);
            } else {
                assert(s[a].0@ != s[b].0@);
            }
        }
    }
}

/// Where `key` sits among the entries, if anywhere.
fn position<V>(s: &Vec<(String, V)>, key: &String) -> (r: Option<usize>)
    ensures
        match r {
            Some(i) => i < s@.len() && s@[i as int].0@ == key@,
            None => forall|i: int| 0 <= i < s@.len() ==> s@[i].0@ != key@,
        },
{
    let n = s.len();
    let mut i: usize = 0;
    while i < n
        invariant
            n == s@.len(),
            i <= n,
            forall|j: int| 0 <= j < i ==> s@[j].0@ != key@,
        decreases n - i,
    {
        if s[i].0 == *key {
            return Some(i);
        }
        i = i + 1;
    }
    None
}

/// Sets the value of `key`, adding the key if it is new.
fn insert_entry<V>(s: &mut Vec<(String, V)>, key: String, v: V)
    requires
        unique_keys(old(s)@),
    ensures
        unique_keys(final(s)@),
        map_of(final(s)@) == map_of(old(s)@).insert(key@, v),
{
    match position(s, &key) {
        Some(i) => {
            proof {
                lemma_map_of_update(s@, i as int, key, v);
            }
            s.set(i, (key, v));
        },
        None => {
            proof {
                lemma_map_of_lookup(s@, key@);
                lemma_map_of_push(s@, key, v);
            }
            s.push((key, v));
        },
    }
}

/// The asset list as the price service keeps it: the feed identifier of each
/// asset other than USDT that has one, mapped to the asset's symbol; a later
/// asset with the same identifier wins.
pub open spec fn feed_assets(list: Seq<AssetResponse>) -> Map<Seq<char>, Seq<char>>
    decreases list.len(),
{
    if list.len() == 0 {
        Map::empty()
    } else {
        let a = list.last();
        let m = feed_assets(list.drop_last());
        if a.symbol@ != "USDT"@ && a.coingecko_id is Some {
            m.insert(a.coingecko_id->0@, a.symbol@)
        } else {
            m
        }
    }
}

/// The symbol-keyed view of the feed identifiers.
pub open spec fn symbols_of(s: Seq<(String, String)>) -> Map<Seq<char>, Seq<char>> {
    map_of(s).map_values(|v: String| v@)
}

/// Prices after a batch of fetched `(feed identifier, price)` pairs: each pair
/// whose identifier is known sets the price of that identifier's asset, in
/// order.
pub open spec fn apply_fetched(
    prices: Map<Seq<char>, Dec>,
    assets: Map<Seq<char>, Seq<char>>,
    fetched: Seq<(String, Dec)>,
) -> Map<Seq<char>, Dec>
    decreases fetched.len(),
{
    if fetched.len() == 0 {
        prices
    } else {
        let m = apply_fetched(prices, assets, fetched.drop_last());
        let (id, price) = fetched.last();
        if assets.contains_key(id@) {
            m.insert(assets[id@], price)
        } else {
            m
        }
    }
}

/// Reference prices by asset symbol, and the assets the feed is asked about.
#[derive(Debug)]
pub struct PriceService {
    /// Asset symbol and its last fetched price.
    pub prices: Vec<(String, Dec)>,
    /// Feed identifier and the symbol of the asset it names.
    pub assets: Vec<(String, String)>,
}

impl PriceService {
    pub open spec fn wf(self) -> bool {
        &&& unique_keys(self.prices@)
        &&& unique_keys(self.assets@)
    }

    /// Prices by asset symbol.
    pub open spec fn price_map(self) -> Map<Seq<char>, Dec> {
        map_of(self.prices@)
    }

    /// Asset symbols by feed identifier.
    pub open spec fn asset_map(self) -> Map<Seq<char>, Seq<char>> {
        symbols_of(self.assets@)
    }

    /// A service with no prices yet, asking the feed about every asset other
    /// than USDT that has a feed identifier.
    pub fn new(assets: Vec<AssetResponse>) -> (s: PriceService)
        ensures
            s.wf(),
            s.price_map() == Map::<Seq<char>, Dec>::empty(),
            s.asset_map() =~= feed_assets(assets@),
    {
        let mut entries: Vec<(String, String)> = Vec::new();
        let n = assets.len();
        let mut i: usize = 0;
        let usdt = String::from_str("USDT");
        proof {
            reveal_strlit("USDT");
        }
        while i < n
            invariant
                n == assets@.len(),
                i <= n,
                usdt@ == "USDT"@,
                unique_keys(entries@),
                symbols_of(entries@) =~= feed_assets(assets@.subrange(0, i as int)),
            decreases n - i,
        {
            let a = &assets[i];
            assert(assets@.subrange(0, i + 1).drop_last() =~= assets@.subrange(0, i as int));
            if !str_eq(a.symbol.as_str(), usdt.as_str()) {
                match &a.coingecko_id {
                    Some(id) => {
                        insert_entry(&mut entries, id.clone(), a.symbol.clone());
                    },
                    None => {},
                }
            }
            i = i + 1;
        }
        assert(assets@.subrange(0, n as int) =~= assets@);
        let s = PriceService { prices: Vec::new(), assets: entries };
        assert(s.price_map() =~= Map::<Seq<char>, Dec>::empty());
        s
    }

    /// The last fetched price of `asset`, if any.
    pub fn get_price(&self, asset: &str) -> (r: Option<Dec>)
        requires
            self.wf(),
        ensures
            match r {
                Some(p) => self.price_map().contains_key(asset@) && self.price_map()[asset@] == p,
                None => !self.price_map().contains_key(asset@),
            },
    {
        let key = String::from_str(asset);
        proof {
            lemma_map_of_lookup(self.prices@, asset@);
        }
        match position(&self.prices, &key) {
            Some(i) => Some(self.prices[i].1),
            None => None,
        }
    }

    /// The feed identifiers to ask about.
    pub fn ids(&self) -> (r: Vec<String>)
        requires
            self.wf(),
        ensures
            r@.len() == self.assets@.len(),
            forall|i: int| 0 <= i < r@.len() ==> r@[i]@ == self.assets@[i].0@,
            forall|k: Seq<char>|
                self.asset_map().contains_key(k) <==> exists|i: int| 0 <= i < r@.len() && r@[i]@ == k,
    {
        let mut r: Vec<String> = Vec::new();
        let n = self.assets.len();
        let mut i: usize = 0;
        while i < n
            invariant
                n == self.assets@.len(),
                i <= n,
                r@.len() == i,
                forall|j: int| 0 <= j < i ==> r@[j]@ == self.assets@[j].0@,
            decreases n - i,
        {
            r.push(self.assets[i].0.clone());
            i = i + 1;
        }
        assert forall|k: Seq<char>|
            self.asset_map().contains_key(k) <==> exists|i: int| 0 <= i < r@.len() && r@[i]@ == k by {
            lemma_map_of_lookup(self.assets@, k);
            if exists|i: int| 0 <= i < r@.len() && r@[i]@ == k {
                let i = choose|i: int| 0 <= i < r@.len() && r@[i]@ == k;
                assert(self.assets@[i].0@ == k);
            }
            if map_of(self.assets@).contains_key(k) {
                let i = choose|i: int| 0 <= i < self.assets@.len() && self.assets@[i].0@ == k;
                assert(r@[i]@ == k);
            }
        }
        r
    }

    /// Records a batch of fetched `(feed identifier, price)` pairs: each pair
    /// whose identifier is known sets its asset's price; unknown ones are
    /// passed over.
    pub fn apply_prices(&mut self, fetched: Vec<(String, Dec)>)
        requires
            old(self).wf(),
        ensures
            final(self).wf(),
            final(self).assets == old(self).assets,
            final(self).price_map() == apply_fetched(old(self).price_map(), old(self).asset_map(), fetched@),
    {
        let n = fetched.len();
        let mut i: usize = 0;
        while i < n
            invariant
                n == fetched@.len(),
                i <= n,
                self.wf(),
                self.assets == old(self).assets,
                self.price_map() == apply_fetched(
                    old(self).price_map(),
                    old(self).asset_map(),
                    fetched@.subrange(0, i as int),
                ),
            decreases n - i,
        {
            assert(fetched@.subrange(0, i + 1).drop_last() =~= fetched@.subrange(0, i as int));
            let id = &fetched[i].0;
            proof {
                lemma_map_of_lookup(self.assets@, id@);
            }
            match position(&self.assets, id) {
                Some(j) => {
                    let symbol = self.assets[j].1.clone();
                    insert_entry(&mut self.prices, symbol, fetched[i].1);
                },
                None => {},
            }
            i = i + 1;
        }
        assert(fetched@.subrange(0, n as int) =~= fetched@);
    }
}

/// A read gives back the last write: after a fetched price for a known
/// identifier is recorded, the price of that identifier's asset is that price.
pub proof fn law_price_read_after_update(
    prices: Map<Seq<char>, Dec>,
    assets: Map<Seq<char>, Seq<char>>,
    id: String,
    price: Dec,
)
    requires
        assets.contains_key(id@),
    ensures
        apply_fetched(prices, assets, seq![(id, price)]).contains_key(assets[id@]),
        apply_fetched(prices, assets, seq![(id, price)])[assets[id@]] == price,
{
    assert(seq![(id, price)].drop_last() =~= Seq::<(String, Dec)>::empty());
}

/// A fetched price for an identifier the service does not ask about changes
/// nothing.
pub proof fn law_unknown_price_ignored(
    prices: Map<Seq<char>, Dec>,
    assets: Map<Seq<char>, Seq<char>>,
    id: String,
    price: Dec,
)
    requires
        !assets.contains_key(id@),
    ensures
        apply_fetched(prices, assets, seq![(id, price)]) == prices,
{
    assert(seq![(id, price)].drop_last() =~= Seq::<(String, Dec)>::empty());
    assert(apply_fetched(prices, assets, Seq::<(String, Dec)>::empty()) == prices);
}

} // verus!
