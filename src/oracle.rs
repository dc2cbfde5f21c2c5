//! The price oracle: assets registered by the owner, prices fed by each asset's feeder
//! or brought back from a remote oracle through its gate, and paged price reads in the
//! byte order of the asset names.

use vstd::prelude::*;
use crate::coin::Coin;
use crate::order::{key_lt, key_less, lemma_key_lt_total, lemma_bytes_lt_transitive, lemma_bytes_lt_asymmetric};
use crate::paging::{page_size, DEFAULT_LIMIT, MAX_LIMIT};
use crate::table::{Table, keys_unique, lookup, assign, lemma_find_key, lemma_assign, lemma_insert_fresh};

verus! {

/// A price: a fixed-point number with eighteen decimal places, held as its atomic units.
#[derive(Debug, Clone, Copy, PartialEq, Eq)]
pub struct Decimal {
    pub atomics: u128,
}

/// A registered asset: who may feed its price, and the last price fed.
#[derive(Debug, PartialEq, Eq)]
pub struct Asset {
    pub feeder: String,
    pub price: Option<Decimal>,
}

pub struct AssetView {
    pub feeder: Seq<char>,
    pub price: Option<Decimal>,
}

impl View for Asset {
    type V = AssetView;

    open spec fn view(&self) -> AssetView {
        AssetView { feeder: self.feeder@, price: self.price }
    }
}

impl Clone for Asset {
    fn clone(&self) -> (r: Self)
        ensures
            r == *self,
    {
        Asset { feeder: self.feeder.clone(), price: self.price }
    }
}

/// Why a call of the oracle is refused; every refusal leaves the oracle as it was.
#[derive(Debug, Clone, Copy, PartialEq, Eq)]
pub enum OracleError {
    Unauthorized,
    GateNotRegistered,
    AssetAlredyRegistered,
    AssetNotFound,
    PriceNeverFeeded,
    ChainNotRegistered,
}

/// A message the oracle sends out.
#[derive(Debug, PartialEq, Eq)]
pub enum OracleMsg {
    /// Its gate asks the oracle `remote_contract` on `chain` for the price of `asset`.
    QueryPrice { gate: String, chain: String, remote_contract: String, asset: String, funds: Vec<Coin> },
    /// Its gate lets only `addresses` on `chain` send to this contract.
    SetPermission { gate: String, chain: String, addresses: Vec<String> },
}

/// The oracle's whole state; `assets` is kept in ascending byte order of the names.
pub struct Oracle {
    pub owner: String,
    pub gate: Option<String>,
    pub chains: Table<String, String>,
    pub assets: Table<String, Asset>,
}

pub struct OracleView {
    pub owner: Seq<char>,
    pub gate: Option<Seq<char>>,
    pub chains: Seq<(Seq<char>, Seq<char>)>,
    pub assets: Seq<(Seq<char>, AssetView)>,
}

impl View for Oracle {
    type V = OracleView;

    open spec fn view(&self) -> OracleView {
        OracleView {
            owner: self.owner@,
            gate: match self.gate {
                Some(g) => Some(g@),
                None => None,
            },
            chains: self.chains@,
            assets: self.assets@,
        }
    }
}

pub open spec fn sorted_keys<V>(s: Seq<(Seq<char>, V)>) -> bool {
    forall|i: int, j: int| #![trigger s[i], s[j]] 0 <= i < j < s.len() ==> key_lt(s[i].0, s[j].0)
}

pub open spec fn oracle_ok(o: OracleView) -> bool {
    &&& keys_unique(o.chains)
    &&& keys_unique(o.assets)
    &&& sorted_keys(o.assets)
}

pub open spec fn feeder_check(o: OracleView, sender: Seq<char>, asset: Seq<char>) -> Result<(), OracleError> {
    match lookup(o.assets, asset) {
        None => Err(OracleError::AssetNotFound),
        Some(a) => if a.feeder == sender {
            Ok(())
        } else {
            Err(OracleError::Unauthorized)
        },
    }
}

pub open spec fn priced(a: AssetView, price: Decimal) -> AssetView {
    AssetView { feeder: a.feeder, price: Some(price) }
}

/// The assets after each reported price is recorded in turn; every asset must be registered.
pub open spec fn apply_prices(s: Seq<(Seq<char>, AssetView)>, prices: Seq<(Seq<char>, Decimal)>) -> Result<
    Seq<(Seq<char>, AssetView)>,
    OracleError,
>
    decreases prices.len(),
{
    if prices.len() == 0 {
        Ok(s)
    } else {
        match apply_prices(s, prices.drop_last()) {
            Err(e) => Err(e),
            Ok(t) => match lookup(t, prices.last().0) {
                None => Err(OracleError::AssetNotFound),
                Some(a) => Ok(assign(t, prices.last().0, priced(a, prices.last().1))),
            },
        }
    }
}

/// Number of leading entries whose name does not come after `start`.
pub open spec fn first_above<V>(s: Seq<(Seq<char>, V)>, start: Seq<char>) -> int
    decreases s.len(),
{
    if s.len() == 0 {
        0
    } else if key_lt(start, s[0].0) {
        0
    } else {
        1 + first_above(s.drop_first(), start)
    }
}

/// A page of prices: the assets after the cursor, in order, at most `page_size(limit)`.
pub open spec fn prices_page(
    s: Seq<(Seq<char>, AssetView)>,
    start_after: Option<Seq<char>>,
    limit: Option<u64>,
) -> Seq<(Seq<char>, Option<Decimal>)> {
    let f = match start_after {
        None => 0,
        Some(b) => first_above(s, b),
    };
    let n = if page_size(limit) < s.len() - f {
        page_size(limit) as int
    } else {
        s.len() - f
    };
    Seq::new(n as nat, |i: int| (s[f + i].0, s[f + i].1.price))
}

pub open spec fn prices_view(v: Seq<(String, Option<Decimal>)>) -> Seq<(Seq<char>, Option<Decimal>)> {
    v.map_values(|e: (String, Option<Decimal>)| (e.0@, e.1))
}

proof fn lemma_first_above_bounds<V>(s: Seq<(Seq<char>, V)>, start: Seq<char>)
    ensures
        0 <= first_above(s, start) <= s.len(),
        forall|i: int| 0 <= i < first_above(s, start) ==> !key_lt(start, #[trigger] s[i].0),
        first_above(s, start) < s.len() ==> key_lt(start, s[first_above(s, start)].0),
    decreases s.len(),
{
    if s.len() > 0 && !key_lt(start, s[0].0) {
        lemma_first_above_bounds(s.drop_first(), start);
        assert forall|i: int| 0 <= i < first_above(s, start) implies !key_lt(start, #[trigger] s[i].0) by {
            if i > 0 {
                assert(s[i] == s.drop_first()[i - 1]);
            }
        }
    }
}

impl Oracle {
    pub open spec fn wf(&self) -> bool {
        oracle_ok(self@)
    }

    pub fn instantiate(owner: String) -> (r: Oracle)
        ensures
            r.wf(),
            r@.owner == owner@,
            r@.gate is None,
            r@.chains.len() == 0,
            r@.assets.len() == 0,
    {
        Oracle { owner, gate: None, chains: Table::new(), assets: Table::new() }
    }

    fn only_owner(&self, caller: &String) -> (r: Result<(), OracleError>)
        ensures
            r is Ok <==> self@.owner == caller@,
            r matches Err(e) ==> e == OracleError::Unauthorized,
    {
        if self.owner == *caller {
            Ok(())
        } else {
            Err(OracleError::Unauthorized)
        }
    }

    fn only_gate(&self, caller: &String) -> (r: Result<String, OracleError>)
        ensures
            match r {
                Ok(g) => self@.gate == Some(caller@) && g@ == caller@,
                Err(e) => if self@.gate is None {
                    e == OracleError::GateNotRegistered
                } else {
                    self@.gate != Some(caller@) && e == OracleError::Unauthorized
                },
            },
    {
        match &self.gate {
            None => Err(OracleError::GateNotRegistered),
            Some(g) => if *g == *caller {
                Ok(g.clone())
            } else {
                Err(OracleError::Unauthorized)
            },
        }
    }

    fn only_feeder(&self, sender: &String, asset: &String) -> (r: Result<(), OracleError>)
        ensures
            r == feeder_check(self@, sender@, asset@),
    {
        match self.assets.get(asset) {
            None => Err(OracleError::AssetNotFound),
            Some(a) => if a.feeder == *sender {
                Ok(())
            } else {
                Err(OracleError::Unauthorized)
            },
        }
    }

    /// The owner registers `asset`, fed by `feeder`, with no price yet.
    pub fn register_asset(&mut self, sender: &String, asset: String, feeder: String) -> (r: Result<
        (),
        OracleError,
    >)
        requires
            old(self).wf(),
        ensures
            final(self).wf(),
            old(self)@.owner != sender@ ==> r == Err::<(), OracleError>(OracleError::Unauthorized),
            old(self)@.owner == sender@ && lookup(old(self)@.assets, asset@) is Some ==> r == Err::<
                (),
                OracleError,
            >(OracleError::AssetAlredyRegistered),
            r is Err ==> final(self)@ == old(self)@,
            r is Ok ==> {
                &&& old(self)@.owner == sender@
                &&& lookup(old(self)@.assets, asset@) is None
                &&& final(self)@.assets.len() == old(self)@.assets.len() + 1
                &&& forall|q: Seq<char>| #[trigger]
                    lookup(final(self)@.assets, q) == if q == asset@ {
                        Some(AssetView { feeder: feeder@, price: None })
                    } else {
                        lookup(old(self)@.assets, q)
                    }
                &&& final(self)@ == (OracleView { assets: final(self)@.assets, ..old(self)@ })
            },
    {
        if let Err(e) = self.only_owner(sender) {
            return Err(e);
        }
        if self.assets.find(&asset).is_some() {
            proof {
                lemma_find_key(self.assets@, asset@);
            }
            return Err(OracleError::AssetAlredyRegistered);
        }
        let ghost s = self.assets@;
        proof {
            lemma_find_key(s, asset@);
        }
        let mut p: usize = 0;
        while p < self.assets.entries.len() && key_less(&self.assets.entries[p].0, &asset)
            invariant
                p <= self.assets.entries.len(),
                s == self.assets@,
                s.len() == self.assets.entries@.len(),
                forall|i: int| 0 <= i < p ==> key_lt(#[trigger] s[i].0, asset@),
            decreases self.assets.entries.len() - p,
        {
            assert(s[p as int].0 == self.assets.entries@[p as int].0@);
            p = p + 1;
        }
        if p < self.assets.entries.len() {
            assert(s[p as int].0 == self.assets.entries@[p as int].0@);
        }
        let ghost e = (asset@, AssetView { feeder: feeder@, price: None });
        proof {
            lemma_insert_fresh(s, p as int, e.0, e.1);
            let t = s.insert(p as int, e);
            assert forall|i: int, j: int| 0 <= i < j < t.len() implies key_lt(t[i].0, t[j].0) by {
                if p < s.len() {
                    assert(s[p as int].0 != asset@);
                    lemma_key_lt_total(s[p as int].0, asset@);
                    lemma_bytes_lt_asymmetric(
                        vstd::utf8::encode_utf8(asset@),
                        vstd::utf8::encode_utf8(s[p as int].0),
                    );
                }
                if i < p && j == p {
                } else if i < p && j > p {
                    assert(t[j] == s[j - 1]);
                    if j - 1 > p {
                        lemma_bytes_lt_transitive(
                            vstd::utf8::encode_utf8(asset@),
                            vstd::utf8::encode_utf8(s[p as int].0),
                            vstd::utf8::encode_utf8(s[j - 1].0),
                        );
                    }
                    lemma_bytes_lt_transitive(
                        vstd::utf8::encode_utf8(t[i].0),
                        vstd::utf8::encode_utf8(asset@),
                        vstd::utf8::encode_utf8(t[j].0),
                    );
                } else if i == p {
                    assert(t[j] == s[j - 1]);
                    if j - 1 > p {
                        lemma_bytes_lt_transitive(
                            vstd::utf8::encode_utf8(asset@),
                            vstd::utf8::encode_utf8(s[p as int].0),
                            vstd::utf8::encode_utf8(s[j - 1].0),
                        );
                    }
                } else if i > p {
                    assert(t[i] == s[i - 1] && t[j] == s[j - 1]);
                } else {
                    assert(t[i] == s[i] && t[j] == s[j]);
                }
            }
        }
        let entry = (asset, Asset { feeder, price: None });
        self.assets.entries.insert(p, entry);
        assert(self.assets@ =~= s.insert(p as int, e));
        Ok(())
    }

    /// The asset's feeder records a new price.
    pub fn feed_price(&mut self, sender: &String, asset: &String, price: Decimal) -> (r: Result<
        (),
        OracleError,
    >)
        requires
            old(self).wf(),
        ensures
            final(self).wf(),
            r == feeder_check(old(self)@, sender@, asset@),
            r is Err ==> final(self)@ == old(self)@,
            r is Ok ==> final(self)@ == (OracleView {
                assets: assign(
                    old(self)@.assets,
                    asset@,
                    priced(lookup(old(self)@.assets, asset@)->Some_0, price),
                ),
                ..old(self)@
            }),
    {
        if let Err(e) = self.only_feeder(sender, asset) {
            return Err(e);
        }
        self.set_price(asset, price);
        Ok(())
    }

    fn set_price(&mut self, asset: &String, price: Decimal)
        requires
            old(self).wf(),
            lookup(old(self)@.assets, asset@) is Some,
        ensures
            final(self).wf(),
            final(self)@ == (OracleView {
                assets: assign(
                    old(self)@.assets,
                    asset@,
                    priced(lookup(old(self)@.assets, asset@)->Some_0, price),
                ),
                ..old(self)@
            }),
            final(self)@.assets.len() == old(self)@.assets.len(),
            forall|q: Seq<char>| #[trigger] lookup(final(self)@.assets, q) is Some <==> lookup(old(self)@.assets, q) is Some,
    {
        let ghost s = self.assets@;
        proof {
            lemma_find_key(s, asset@);
            lemma_assign(s, asset@, priced(lookup(s, asset@)->Some_0, price));
        }
        let feeder = match self.assets.get(asset) {
            Some(a) => a.feeder.clone(),
            None => {
                return;
            },
        };
        self.assets.insert(asset.clone(), Asset { feeder, price: Some(price) });
        proof {
            let t = self.assets@;
            assert forall|i: int, j: int| 0 <= i < j < t.len() implies key_lt(t[i].0, t[j].0) by {
                assert(t[i].0 == s[i].0 && t[j].0 == s[j].0);
            }
        }
    }

    /// The asset's feeder asks the remote oracle on `chain`, through its gate, for the price.
    pub fn feed_remote_price(&self, sender: &String, funds: Vec<Coin>, asset: String, chain: String) -> (r:
        Result<OracleMsg, OracleError>)
        ensures
            feeder_check(self@, sender@, asset@) is Err ==> r == Err::<OracleMsg, OracleError>(
                feeder_check(self@, sender@, asset@)->Err_0,
            ),
            feeder_check(self@, sender@, asset@) is Ok && lookup(self@.chains, chain@) is None ==> r
                == Err::<OracleMsg, OracleError>(OracleError::ChainNotRegistered),
            feeder_check(self@, sender@, asset@) is Ok && lookup(self@.chains, chain@) is Some
                && self@.gate is None ==> r == Err::<OracleMsg, OracleError>(OracleError::GateNotRegistered),
            r is Ok <==> feeder_check(self@, sender@, asset@) is Ok && lookup(self@.chains, chain@) is Some
                && self@.gate is Some,
            r matches Ok(OracleMsg::QueryPrice { gate, chain: c, remote_contract, asset: a, funds: f }) ==> {
                &&& Some(gate@) == self@.gate
                &&& c@ == chain@
                &&& lookup(self@.chains, chain@) == Some(remote_contract@)
                &&& a@ == asset@
                &&& f@ == funds@
            },
            !(r matches Ok(OracleMsg::SetPermission { .. })),
    {
        if let Err(e) = self.only_feeder(sender, &asset) {
            return Err(e);
        }
        let remote_contract = match self.chains.get(&chain) {
            Some(c) => c.clone(),
            None => {
                return Err(OracleError::ChainNotRegistered);
            },
        };
        let gate = match &self.gate {
            Some(g) => g.clone(),
            None => {
                return Err(OracleError::GateNotRegistered);
            },
        };
        Ok(OracleMsg::QueryPrice { gate, chain, remote_contract, asset, funds })
    }

    /// The owner registers its gate contract.
    pub fn register_gate(&mut self, sender: &String, contract: String) -> (r: Result<(), OracleError>)
        requires
            old(self).wf(),
        ensures
            final(self).wf(),
            r is Ok <==> old(self)@.owner == sender@,
            r matches Err(e) ==> e == OracleError::Unauthorized && final(self)@ == old(self)@,
            r is Ok ==> final(self)@ == (OracleView { gate: Some(contract@), ..old(self)@ }),
    {
        if let Err(e) = self.only_owner(sender) {
            return Err(e);
        }
        self.gate = Some(contract);
        Ok(())
    }

    /// The owner records the remote oracle of `chain` and asks its gate to accept only it.
    pub fn gate_set_permission(&mut self, sender: &String, contract: String, chain: String) -> (r:
        Result<OracleMsg, OracleError>)
        requires
            old(self).wf(),
        ensures
            final(self).wf(),
            old(self)@.owner != sender@ ==> r == Err::<OracleMsg, OracleError>(OracleError::Unauthorized),
            old(self)@.owner == sender@ && old(self)@.gate is None ==> r == Err::<OracleMsg, OracleError>(
                OracleError::GateNotRegistered,
            ),
            r is Err ==> final(self)@ == old(self)@,
            r matches Ok(OracleMsg::SetPermission { gate, chain: c, addresses }) ==> {
                &&& Some(gate@) == old(self)@.gate
                &&& c@ == chain@
                &&& addresses@.len() == 1
                &&& addresses@[0]@ == contract@
                &&& final(self)@ == (OracleView {
                    chains: assign(old(self)@.chains, chain@, contract@),
                    ..old(self)@
                })
            },
            !(r matches Ok(OracleMsg::QueryPrice { .. })),
            r is Ok <==> old(self)@.owner == sender@ && old(self)@.gate is Some,
    {
        if let Err(e) = self.only_owner(sender) {
            return Err(e);
        }
        let gate = match &self.gate {
            Some(g) => g.clone(),
            None => {
                return Err(OracleError::GateNotRegistered);
            },
        };
        let mut addresses: Vec<String> = Vec::new();
        addresses.push(contract.clone());
        self.chains.insert(chain.clone(), contract);
        Ok(OracleMsg::SetPermission { gate, chain, addresses })
    }

    /// Its gate brings back prices from a remote oracle; each is recorded in turn.
    pub fn gate_query_response(&mut self, caller: &String, prices: Vec<(String, Decimal)>) -> (r:
        Result<(), OracleError>)
        requires
            old(self).wf(),
        ensures
            final(self).wf(),
            old(self)@.gate is None ==> r == Err::<(), OracleError>(OracleError::GateNotRegistered),
            old(self)@.gate is Some && old(self)@.gate != Some(caller@) ==> r == Err::<(), OracleError>(
                OracleError::Unauthorized,
            ),
            old(self)@.gate == Some(caller@) ==> match apply_prices(old(self)@.assets, price_list(prices@)) {
                Ok(t) => r is Ok && final(self)@ == (OracleView { assets: t, ..old(self)@ }),
                Err(e) => r == Err::<(), OracleError>(e),
            },
            r is Err ==> final(self)@ == old(self)@,
    {
        if let Err(e) = self.only_gate(caller) {
            return Err(e);
        }
        let ghost s = self.assets@;
        let ghost pl = price_list(prices@);
        let mut i: usize = 0;
        assert(pl.take(0) =~= Seq::<(Seq<char>, Decimal)>::empty());
        while i < prices.len()
            invariant
                i <= prices.len(),
                pl == price_list(prices@),
                pl.len() == prices@.len(),
                s == self.assets@,
                self@ == old(self)@,
                self.wf(),
                old(self)@.gate == Some(caller@),
                forall|j: int| 0 <= j < i ==> lookup(s, #[trigger] pl[j].0) is Some,
            decreases prices.len() - i,
        {
            assert(pl.take(i + 1).drop_last() =~= pl.take(i as int));
            assert(pl[i as int].0 == prices@[i as int].0@);
            if self.assets.find(&prices[i].0).is_none() {
                proof {
                    lemma_find_key(s, pl[i as int].0);
                    lemma_apply_present(s, pl, i as int);
                    lemma_apply_error_stays(s, pl, i as int + 1);
                }
                return Err(OracleError::AssetNotFound);
            }
            proof {
                lemma_find_key(s, pl[i as int].0);
            }
            i = i + 1;
        }
        assert(pl.take(prices@.len() as int) =~= pl);
        proof {
            lemma_apply_present(s, pl, pl.len() as int);
        }
        let mut k: usize = 0;
        assert(pl.take(0) =~= Seq::<(Seq<char>, Decimal)>::empty());
        while k < prices.len()
            invariant
                k <= prices.len(),
                pl == price_list(prices@),
                pl.len() == prices@.len(),
                self.wf(),
                forall|j: int| 0 <= j < pl.len() ==> lookup(s, #[trigger] pl[j].0) is Some,
                forall|q: Seq<char>| #[trigger] lookup(self@.assets, q) is Some <==> lookup(s, q) is Some,
                apply_prices(s, pl.take(k as int)) == Ok::<Seq<(Seq<char>, AssetView)>, OracleError>(
                    self@.assets,
                ),
                self@ == (OracleView { assets: self@.assets, ..old(self)@ }),
                old(self)@.gate == Some(caller@),
            decreases prices.len() - k,
        {
            assert(pl.take(k + 1).drop_last() =~= pl.take(k as int));
            assert(pl[k as int].0 == prices@[k as int].0@);
            assert(lookup(self@.assets, pl[k as int].0) is Some);
            self.set_price(&prices[k].0, prices[k].1);
            k = k + 1;
        }
        assert(pl.take(prices@.len() as int) =~= pl);
        Ok(())
    }

    /// The last price fed for `asset`.
    pub fn qy_price(&self, asset: &String) -> (r: Result<Decimal, OracleError>)
        ensures
            match lookup(self@.assets, asset@) {
                None => r == Err::<Decimal, OracleError>(OracleError::AssetNotFound),
                Some(a) => match a.price {
                    None => r == Err::<Decimal, OracleError>(OracleError::PriceNeverFeeded),
                    Some(p) => r == Ok::<Decimal, OracleError>(p),
                },
            },
    {
        match self.assets.get(asset) {
            None => Err(OracleError::AssetNotFound),
            Some(a) => match a.price {
                None => Err(OracleError::PriceNeverFeeded),
                Some(p) => Ok(p),
            },
        }
    }

    /// Prices of the assets named after `start_after`, in byte order of the names, at most
    /// `limit` of them (ten by default, thirty at most).
    pub fn qy_prices(&self, start_after: Option<String>, limit: Option<u64>) -> (r: Vec<
        (String, Option<Decimal>),
    >)
        requires
            self.wf(),
        ensures
            prices_view(r@) == prices_page(
                self@.assets,
                opt_text(start_after),
                limit,
            ),
            start_after matches Some(b) ==> forall|i: int|
                0 <= i < r@.len() ==> key_lt(b@, #[trigger] prices_view(r@)[i].0),
    {
        let ghost s = self.assets@;
        let n = self.assets.entries.len();
        let mut f: usize = 0;
        if let Some(b) = &start_after {
            proof {
                lemma_first_above_bounds(s, b@);
            }
            assert(s.skip(0) =~= s);
            while f < n && !key_less(b, &self.assets.entries[f].0)
                invariant
                    f <= n,
                    n == s.len(),
                    s == self.assets@,
                    first_above(s, b@) == f + first_above(s.skip(f as int), b@),
                decreases n - f,
            {
                assert(s[f as int].0 == self.assets.entries@[f as int].0@);
                assert(s.skip(f as int)[0] == s[f as int]);
                assert(s.skip(f as int).drop_first() =~= s.skip(f + 1));
                f = f + 1;
            }
            if f < n {
                assert(s[f as int].0 == self.assets.entries@[f as int].0@);
                assert(s.skip(f as int)[0] == s[f as int]);
            }
        }
        let size: usize = match limit {
            Some(l) => if l < MAX_LIMIT {
                l as usize
            } else {
                MAX_LIMIT as usize
            },
            None => DEFAULT_LIMIT as usize,
        };
        let ghost want = prices_page(
            s,
            opt_text(start_after),
            limit,
        );
        let mut out: Vec<(String, Option<Decimal>)> = Vec::new();
        let mut i: usize = 0;
        while i < size && f + i < n
            invariant
                f <= n,
                n == s.len(),
                s == self.assets@,
                size == page_size(limit),
                want == prices_page(
                    s,
                    opt_text(start_after),
                    limit,
                ),
                f == match start_after {
                    Some(b) => first_above(s, b@),
                    None => 0,
                },
                prices_view(out@) == want.take(i as int),
                i <= size,
                f + i <= n,
            decreases n - f - i,
        {
            let e = &self.assets.entries[f + i];
            assert(s[f + i] == (e.0@, e.1@));
            let ghost before = out@;
            out.push((e.0.clone(), e.1.price));
            assert(prices_view(out@) =~= prices_view(before).push((e.0@, e.1.price)));
            assert(want.take(i + 1) =~= want.take(i as int).push(want[i as int]));
            i = i + 1;
        }
        assert(want.take(i as int) =~= want);
        proof {
            if start_after is Some {
                let b = start_after->Some_0;
                lemma_first_above_bounds(s, b@);
                assert forall|j: int| 0 <= j < out@.len() implies key_lt(b@, #[trigger] prices_view(out@)[j].0) by {
                    assert(prices_view(out@)[j].0 == s[f + j].0);
                    if j > 0 {
                        lemma_bytes_lt_transitive(
                            vstd::utf8::encode_utf8(b@),
                            vstd::utf8::encode_utf8(s[f as int].0),
                            vstd::utf8::encode_utf8(s[f + j].0),
                        );
                    }
                }
            }
        }
        out
    }
}

pub open spec fn opt_text(o: Option<String>) -> Option<Seq<char>> {
    match o {
        Some(b) => Some(b@),
        None => None,
    }
}

pub open spec fn price_list(v: Seq<(String, Decimal)>) -> Seq<(Seq<char>, Decimal)> {
    v.map_values(|e: (String, Decimal)| (e.0@, e.1))
}

proof fn lemma_apply_error_stays(
    s: Seq<(Seq<char>, AssetView)>,
    pl: Seq<(Seq<char>, Decimal)>,
    i: int,
)
    requires
        0 <= i <= pl.len(),
        apply_prices(s, pl.take(i)) is Err,
    ensures
        apply_prices(s, pl) == apply_prices(s, pl.take(i)),
    decreases pl.len(),
{
    if pl.len() == i {
        assert(pl.take(i) =~= pl);
    } else {
        assert(pl.drop_last().take(i) =~= pl.take(i));
        lemma_apply_error_stays(s, pl.drop_last(), i);
    }
}

/// Recording prices keeps the set of registered assets; where each is registered, none fails.
proof fn lemma_apply_present(s: Seq<(Seq<char>, AssetView)>, pl: Seq<(Seq<char>, Decimal)>, i: int)
    requires
        keys_unique(s),
        0 <= i <= pl.len(),
        forall|j: int| 0 <= j < i ==> lookup(s, #[trigger] pl[j].0) is Some,
    ensures
        apply_prices(s, pl.take(i)) is Ok,
        keys_unique(apply_prices(s, pl.take(i))->Ok_0),
        apply_prices(s, pl.take(i))->Ok_0.len() == s.len(),
        forall|j: int| 0 <= j < s.len() ==> #[trigger] apply_prices(s, pl.take(i))->Ok_0[j].0 == s[j].0,
        forall|q: Seq<char>| #[trigger] lookup(apply_prices(s, pl.take(i))->Ok_0, q) is Some <==> lookup(s, q) is Some,
    decreases i,
{
    if i > 0 {
        lemma_apply_present(s, pl, i - 1);
        assert(pl.take(i).drop_last() =~= pl.take(i - 1));
        let t = apply_prices(s, pl.take(i - 1))->Ok_0;
        let k = pl[i - 1].0;
        assert(lookup(t, k) is Some);
        lemma_find_key(t, k);
        lemma_assign(t, k, priced(lookup(t, k)->Some_0, pl[i - 1].1));
    } else {
        assert(pl.take(0) =~= Seq::<(Seq<char>, Decimal)>::empty());
    }
}

} // verus!
