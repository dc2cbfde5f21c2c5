//! The lending market: owner and gate administration, the ledger calls, and the
//! bridge saga that locks a position, fans it out to the remote chain, and
//! restores or applies it when its gate reports back.

use vstd::prelude::*;
use crate::coin::{Coin, CoinView, coins_view};
use crate::error::ContractError;
use crate::ledger::{
    Ledger, Position, PositionView, ledger_ok, position_ok,
    increase_loan_outcome, deposit_outcome, withdraw_outcome, decrease_loan_outcome, settle,
    credit_outcome,
};
use crate::table::{Table, keys_unique, lookup, assign, erase, lemma_assign, lemma_find_key};

verus! {

/// One intermediate hop of a native-asset relay path.
#[derive(Debug, PartialEq, Eq)]
pub struct PacketPath {
    pub channel_id: String,
    pub address: String,
}

pub struct PacketPathView {
    pub channel_id: Seq<char>,
    pub address: Seq<char>,
}

impl View for PacketPath {
    type V = PacketPathView;

    open spec fn view(&self) -> PacketPathView {
        PacketPathView { channel_id: self.channel_id@, address: self.address@ }
    }
}

pub open spec fn paths_view(v: Seq<PacketPath>) -> Seq<PacketPathView> {
    v.map_values(|p: PacketPath| p@)
}

/// How the one chain-native collateral travels to the remote chain.
#[derive(Debug, PartialEq, Eq)]
pub struct NativeInfo {
    pub path_middle_forward: Vec<PacketPath>,
    pub dest_denom: String,
    pub channel_id: String,
    pub timeout: Option<u64>,
}

pub struct NativeInfoView {
    pub path_middle_forward: Seq<PacketPathView>,
    pub dest_denom: Seq<char>,
    pub channel_id: Seq<char>,
    pub timeout: Option<u64>,
}

impl View for NativeInfo {
    type V = NativeInfoView;

    open spec fn view(&self) -> NativeInfoView {
        NativeInfoView {
            path_middle_forward: paths_view(self.path_middle_forward@),
            dest_denom: self.dest_denom@,
            channel_id: self.channel_id@,
            timeout: self.timeout,
        }
    }
}

/// The native relay descriptor handed to its gate, with the coin it carries.
#[derive(Debug, PartialEq, Eq)]
pub struct SendNativeInfo {
    pub coin: Coin,
    pub path_middle_forward: Vec<PacketPath>,
    pub dest_denom: String,
    pub channel_id: String,
    pub timeout: Option<u64>,
}

pub struct SendNativeInfoView {
    pub coin: CoinView,
    pub path_middle_forward: Seq<PacketPathView>,
    pub dest_denom: Seq<char>,
    pub channel_id: Seq<char>,
    pub timeout: Option<u64>,
}

impl View for SendNativeInfo {
    type V = SendNativeInfoView;

    open spec fn view(&self) -> SendNativeInfoView {
        SendNativeInfoView {
            coin: self.coin@,
            path_middle_forward: paths_view(self.path_middle_forward@),
            dest_denom: self.dest_denom@,
            channel_id: self.channel_id@,
            timeout: self.timeout,
        }
    }
}

/// The saga payload: the locked position and its translation for the remote chain.
#[derive(Debug, PartialEq, Eq)]
pub struct BridgeMsgInfo {
    pub sender: String,
    pub receiver: String,
    pub src_position: Position,
    pub dest_position: Position,
}

pub struct BridgeMsgInfoView {
    pub sender: Seq<char>,
    pub receiver: Seq<char>,
    pub src_position: PositionView,
    pub dest_position: PositionView,
}

impl View for BridgeMsgInfo {
    type V = BridgeMsgInfoView;

    open spec fn view(&self) -> BridgeMsgInfoView {
        BridgeMsgInfoView {
            sender: self.sender@,
            receiver: self.receiver@,
            src_position: self.src_position@,
            dest_position: self.dest_position@,
        }
    }
}

/// How one collateral reaches the remote chain: as the chain-native asset, or
/// through its token contract, whose counterpart there has the given address.
#[derive(Debug, PartialEq, Eq)]
pub enum Route {
    Native,
    Token { remote: String },
}

pub enum RouteView {
    Native,
    Token { remote: Seq<char> },
}

impl View for Route {
    type V = RouteView;

    open spec fn view(&self) -> RouteView {
        match self {
            Route::Native => RouteView::Native,
            Route::Token { remote } => RouteView::Token { remote: remote@ },
        }
    }
}

pub open spec fn routes_view(v: Seq<Route>) -> Seq<RouteView> {
    v.map_values(|r: Route| r@)
}

/// A message the market sends out.
#[derive(Debug, PartialEq, Eq)]
pub enum MarketMsg {
    /// Token contract `contract` moves `amount` to `recipient`.
    Cw20Transfer { contract: String, recipient: String, amount: u128 },
    /// Token contract `token` bridges `amount` to `remote_receiver` on `chain`, paying `funds`.
    GateBridge {
        token: String,
        chain: String,
        remote_receiver: String,
        amount: u128,
        funds: Vec<Coin>,
    },
    /// Its gate sends the saga payload to `to_contract` on `chain`, paying `funds`.
    SendRequests {
        gate: String,
        chain: String,
        to_contract: String,
        bridge: BridgeMsgInfo,
        send_native: Option<SendNativeInfo>,
        funds: Vec<Coin>,
    },
    /// Its gate lets only `addresses` on `chain` send to this contract.
    SetPermission { gate: String, chain: String, addresses: Vec<String> },
}

pub enum MarketMsgView {
    Cw20Transfer { contract: Seq<char>, recipient: Seq<char>, amount: u128 },
    GateBridge {
        token: Seq<char>,
        chain: Seq<char>,
        remote_receiver: Seq<char>,
        amount: u128,
        funds: Seq<CoinView>,
    },
    SendRequests {
        gate: Seq<char>,
        chain: Seq<char>,
        to_contract: Seq<char>,
        bridge: BridgeMsgInfoView,
        send_native: Option<SendNativeInfoView>,
        funds: Seq<CoinView>,
    },
    SetPermission { gate: Seq<char>, chain: Seq<char>, addresses: Seq<Seq<char>> },
}

pub open spec fn strings_view(v: Seq<String>) -> Seq<Seq<char>> {
    v.map_values(|s: String| s@)
}

impl View for MarketMsg {
    type V = MarketMsgView;

    open spec fn view(&self) -> MarketMsgView {
        match self {
            MarketMsg::Cw20Transfer { contract, recipient, amount } => MarketMsgView::Cw20Transfer {
                contract: contract@,
                recipient: recipient@,
                amount: *amount,
            },
            MarketMsg::GateBridge { token, chain, remote_receiver, amount, funds } =>
                MarketMsgView::GateBridge {
                token: token@,
                chain: chain@,
                remote_receiver: remote_receiver@,
                amount: *amount,
                funds: coins_view(funds@),
            },
            MarketMsg::SendRequests { gate, chain, to_contract, bridge, send_native, funds } =>
                MarketMsgView::SendRequests {
                gate: gate@,
                chain: chain@,
                to_contract: to_contract@,
                bridge: bridge@,
                send_native: match send_native {
                    Some(n) => Some(n@),
                    None => None,
                },
                funds: coins_view(funds@),
            },
            MarketMsg::SetPermission { gate, chain, addresses } => MarketMsgView::SetPermission {
                gate: gate@,
                chain: chain@,
                addresses: strings_view(addresses@),
            },
        }
    }
}

pub open spec fn msgs_view(v: Seq<MarketMsg>) -> Seq<MarketMsgView> {
    v.map_values(|m: MarketMsg| m@)
}

/// What a gate may collect from the market.
#[derive(Debug, PartialEq, Eq)]
pub enum GateCollectMsgsAllowed {
    BridgePosition { to_remote_addr: String, chain: String, native_info: Option<NativeInfo> },
}

/// The market's whole state.
pub struct Market {
    pub owner: String,
    pub gate: Option<String>,
    /// Remote market contract per chain.
    pub chains: Table<String, String>,
    pub ledger: Ledger,
}

pub struct MarketView {
    pub owner: Seq<char>,
    pub gate: Option<Seq<char>>,
    pub chains: Seq<(Seq<char>, Seq<char>)>,
    pub ledger: Seq<(Seq<char>, PositionView)>,
}

impl View for Market {
    type V = MarketView;

    open spec fn view(&self) -> MarketView {
        MarketView {
            owner: self.owner@,
            gate: match self.gate {
                Some(g) => Some(g@),
                None => None,
            },
            chains: self.chains@,
            ledger: self.ledger@,
        }
    }
}

pub open spec fn market_ok(m: MarketView) -> bool {
    keys_unique(m.chains) && ledger_ok(m.ledger)
}

pub open spec fn owner_check(m: MarketView, caller: Seq<char>) -> Result<(), ContractError> {
    if m.owner == caller {
        Ok(())
    } else {
        Err(ContractError::Unauthorized)
    }
}

pub open spec fn gate_check(m: MarketView, caller: Seq<char>) -> Result<(), ContractError> {
    match m.gate {
        None => Err(ContractError::GateNotRegistered),
        Some(g) => if g == caller {
            Ok(())
        } else {
            Err(ContractError::Unauthorized)
        },
    }
}

pub open spec fn with_ledger(m: MarketView, l: Seq<(Seq<char>, PositionView)>) -> MarketView {
    MarketView { ledger: l, ..m }
}

/// The coin that came with a call taking at most one.
pub open spec fn one_coin(funds: Seq<CoinView>) -> Result<Option<CoinView>, ContractError> {
    if funds.len() == 0 {
        Ok(None)
    } else if funds.len() == 1 {
        Ok(Some(funds[0]))
    } else {
        Err(ContractError::TooManyCoins)
    }
}

pub open spec fn native_count(routes: Seq<RouteView>) -> nat
    decreases routes.len(),
{
    if routes.len() == 0 {
        0
    } else {
        native_count(routes.drop_last()) + if routes.last() is Native {
            1nat
        } else {
            0nat
        }
    }
}

/// The key a collateral takes on the remote chain.
pub open spec fn route_key(r: RouteView, dest_denom: Seq<char>) -> Seq<char> {
    match r {
        RouteView::Native => dest_denom,
        RouteView::Token { remote } => remote,
    }
}

/// The collaterals as the remote chain records them.
pub open spec fn translate(
    colls: Seq<(Seq<char>, u128)>,
    routes: Seq<RouteView>,
    dest_denom: Seq<char>,
) -> Seq<(Seq<char>, u128)>
    decreases colls.len(),
{
    if colls.len() == 0 || routes.len() != colls.len() {
        Seq::empty()
    } else {
        assign(
            translate(colls.drop_last(), routes.drop_last(), dest_denom),
            route_key(routes.last(), dest_denom),
            colls.last().1,
        )
    }
}

/// The collateral that travels as the chain-native asset, if any.
pub open spec fn native_coin(colls: Seq<(Seq<char>, u128)>, routes: Seq<RouteView>) -> Option<CoinView>
    decreases colls.len(),
{
    if colls.len() == 0 || routes.len() != colls.len() {
        None
    } else if routes.last() is Native {
        Some(CoinView { denom: colls.last().0, amount: colls.last().1 })
    } else {
        native_coin(colls.drop_last(), routes.drop_last())
    }
}

/// One bridging message per token collateral, in the order of the collaterals.
pub open spec fn bridge_legs(
    colls: Seq<(Seq<char>, u128)>,
    routes: Seq<RouteView>,
    chain: Seq<char>,
    remote_market: Seq<char>,
    share: Seq<CoinView>,
) -> Seq<MarketMsgView>
    decreases colls.len(),
{
    if colls.len() == 0 || routes.len() != colls.len() {
        Seq::empty()
    } else {
        let prev = bridge_legs(colls.drop_last(), routes.drop_last(), chain, remote_market, share);
        match routes.last() {
            RouteView::Native => prev,
            RouteView::Token { .. } => prev.push(
                MarketMsgView::GateBridge {
                    token: colls.last().0,
                    chain,
                    remote_receiver: remote_market,
                    amount: colls.last().1,
                    funds: share,
                },
            ),
        }
    }
}

/// What each token leg receives of the fee: an equal part, `fee / (legs + 1)`.
pub open spec fn fee_share(fee: Option<CoinView>, legs: nat) -> Seq<CoinView> {
    match fee {
        Some(f) => seq![CoinView { denom: f.denom, amount: (f.amount as int / (legs + 1) as int) as u128 }],
        None => Seq::empty(),
    }
}

/// What is left of the fee once every token leg has its part.
pub open spec fn fee_rest(f: CoinView, legs: nat) -> int {
    f.amount as int - (f.amount as int / (legs + 1) as int) * (legs as int)
}

pub open spec fn bridge_funds_fit(fee: Option<CoinView>, legs: nat, native: Option<CoinView>) -> bool {
    match (fee, native) {
        (Some(f), Some(n)) => f.denom != n.denom || fee_rest(f, legs) + n.amount <= u128::MAX,
        _ => true,
    }
}

/// What the saga message carries: the rest of the fee, merged with the native collateral
/// where the denominations agree.
pub open spec fn bridge_funds(fee: Option<CoinView>, legs: nat, native: Option<CoinView>) -> Seq<
    CoinView,
> {
    match fee {
        Some(f) => match native {
            None => seq![CoinView { denom: f.denom, amount: fee_rest(f, legs) as u128 }],
            Some(n) => if n.denom == f.denom {
                seq![CoinView { denom: f.denom, amount: (fee_rest(f, legs) + n.amount) as u128 }]
            } else {
                seq![CoinView { denom: f.denom, amount: fee_rest(f, legs) as u128 }, n]
            },
        },
        None => match native {
            None => Seq::empty(),
            Some(n) => seq![n],
        },
    }
}

pub open spec fn send_native_of(native: Option<CoinView>, info: Option<NativeInfoView>) -> Option<
    SendNativeInfoView,
> {
    match (native, info) {
        (Some(c), Some(i)) => Some(
            SendNativeInfoView {
                coin: c,
                path_middle_forward: i.path_middle_forward,
                dest_denom: i.dest_denom,
                channel_id: i.channel_id,
                timeout: i.timeout,
            },
        ),
        _ => None,
    }
}

pub open spec fn dest_denom_of(info: Option<NativeInfoView>) -> Seq<char> {
    match info {
        Some(i) => i.dest_denom,
        None => Seq::empty(),
    }
}

/// The bridge-out: checks, then the market without the sender's position and the messages
/// that fan it out (one per token collateral, then the saga message to its gate).
pub open spec fn collect_outcome(
    m: MarketView,
    caller: Seq<char>,
    funds: Seq<CoinView>,
    sender: Seq<char>,
    to_remote_addr: Seq<char>,
    chain: Seq<char>,
    native_info: Option<NativeInfoView>,
    routes: Seq<RouteView>,
) -> Result<(MarketView, Seq<MarketMsgView>), ContractError> {
    if gate_check(m, caller) is Err {
        Err(gate_check(m, caller)->Err_0)
    } else if one_coin(funds) is Err {
        Err(ContractError::TooManyCoins)
    } else if lookup(m.ledger, sender) is None {
        Err(ContractError::UserNotFound)
    } else {
        let p = lookup(m.ledger, sender)->Some_0;
        let fee = one_coin(funds)->Ok_0;
        if routes.len() != p.collaterals.len() {
            Err(ContractError::RoutesMismatch)
        } else if native_count(routes) > 1 {
            Err(ContractError::NotBridgable)
        } else if native_count(routes) == 1 && native_info is None {
            Err(ContractError::NativeInfoMissing)
        } else if lookup(m.chains, chain) is None {
            Err(ContractError::ChainNotRegistered)
        } else {
            let remote_market = lookup(m.chains, chain)->Some_0;
            let legs = (routes.len() - native_count(routes)) as nat;
            let native = native_coin(p.collaterals, routes);
            if !bridge_funds_fit(fee, legs, native) {
                Err(ContractError::Overflow)
            } else if !route_keys(routes, dest_denom_of(native_info)).no_duplicates() {
                Err(ContractError::RouteCollision)
            } else {
                let bridge = BridgeMsgInfoView {
                    sender,
                    receiver: to_remote_addr,
                    src_position: p,
                    dest_position: PositionView {
                        loan: p.loan,
                        collaterals: translate(p.collaterals, routes, dest_denom_of(native_info)),
                    },
                };
                let last = MarketMsgView::SendRequests {
                    gate: m.gate->Some_0,
                    chain,
                    to_contract: remote_market,
                    bridge,
                    send_native: send_native_of(native, native_info),
                    funds: bridge_funds(fee, legs, native),
                };
                Ok(
                    (
                        with_ledger(m, erase(m.ledger, sender)),
                        bridge_legs(p.collaterals, routes, chain, remote_market, fee_share(fee, legs)).push(last),
                    ),
                )
            }
        }
    }
}

/// Compensation: the payload's source position goes back to its sender.
pub open spec fn revert_outcome(m: MarketView, caller: Seq<char>, b: BridgeMsgInfoView) -> Result<
    MarketView,
    ContractError,
> {
    if gate_check(m, caller) is Err {
        Err(gate_check(m, caller)->Err_0)
    } else {
        match credit_outcome(lookup(m.ledger, b.sender), b.src_position) {
            Ok(p) => Ok(with_ledger(m, assign(m.ledger, b.sender, p))),
            Err(e) => Err(e),
        }
    }
}

/// Arrival: the payload's translated position is credited to its receiver.
pub open spec fn receive_outcome(m: MarketView, caller: Seq<char>, b: BridgeMsgInfoView) -> Result<
    MarketView,
    ContractError,
> {
    if gate_check(m, caller) is Err {
        Err(gate_check(m, caller)->Err_0)
    } else {
        match credit_outcome(lookup(m.ledger, b.receiver), b.dest_position) {
            Ok(p) => Ok(with_ledger(m, assign(m.ledger, b.receiver, p))),
            Err(e) => Err(e),
        }
    }
}


pub open spec fn opt_coin(o: Option<Coin>) -> Option<CoinView> {
    match o {
        Some(c) => Some(c@),
        None => None,
    }
}

pub open spec fn opt_native_info(o: Option<NativeInfo>) -> Option<NativeInfoView> {
    match o {
        Some(i) => Some(i@),
        None => None,
    }
}

/// The coin that each token leg is paid, given its part of the fee.
pub open spec fn share_view(fee: Option<Coin>, per: u128) -> Seq<CoinView> {
    match fee {
        Some(f) => seq![CoinView { denom: f.denom@, amount: per }],
        None => Seq::empty(),
    }
}

/// Splits a fee among `legs` token legs and the saga message: each leg gets
/// `amount / (legs + 1)`, the saga message the rest, and nothing is lost.
pub fn split_fee(amount: u128, legs: usize) -> (r: (u128, u128))
    ensures
        r.0 == amount as int / (legs as int + 1),
        r.1 == amount as int - r.0 * legs,
        r.0 * legs + r.1 == amount,
{
    let d: u128 = legs as u128 + 1;
    let per = amount / d;
    proof {
        vstd::arithmetic::div_mod::lemma_fundamental_div_mod(amount as int, d as int);
        assert(per * legs <= per * d) by (nonlinear_arith)
            requires
                d == legs + 1,
                per >= 0,
        ;
        assert(per * d <= amount) by (nonlinear_arith)
            requires
                amount == d * (amount / d) + amount % d,
                per == amount / d,
                amount % d >= 0,
        ;
    }
    let rest = amount - per * (legs as u128);
    (per, rest)
}

/// Takes the single coin of a call, or none; more than one is refused.
pub fn onecoin(coins: Vec<Coin>) -> (r: Result<Option<Coin>, ContractError>)
    ensures
        match r {
            Ok(c) => one_coin(coins_view(coins@)) == Ok::<Option<CoinView>, ContractError>(
                opt_coin(c),
            ),
            Err(e) => one_coin(coins_view(coins@)) == Err::<Option<CoinView>, ContractError>(e),
        },
{
    if coins.len() == 1 {
        let mut coins = coins;
        let c = coins.remove(0);
        Ok(Some(c))
    } else if coins.len() == 0 {
        Ok(None)
    } else {
        Err(ContractError::TooManyCoins)
    }
}

fn count_natives(routes: &Vec<Route>) -> (n: usize)
    ensures
        n == native_count(routes_view(routes@)),
{
    let ghost rv = routes_view(routes@);
    let mut n: usize = 0;
    let mut i: usize = 0;
    assert(rv.take(0) =~= Seq::<RouteView>::empty());
    while i < routes.len()
        invariant
            i <= routes.len(),
            rv == routes_view(routes@),
            n == native_count(rv.take(i as int)),
            n <= i,
        decreases routes.len() - i,
    {
        assert(rv.take(i + 1).drop_last() =~= rv.take(i as int));
        if let Route::Native = &routes[i] {
            n = n + 1;
        }
        i = i + 1;
    }
    assert(rv.take(routes.len() as int) =~= rv);
    n
}

fn find_native(p: &Position, routes: &Vec<Route>) -> (r: Option<Coin>)
    requires
        routes@.len() == p.collaterals@.len(),
    ensures
        opt_coin(r) == native_coin(p.collaterals@, routes_view(routes@)),
{
    let ghost rv = routes_view(routes@);
    let ghost colls = p.collaterals@;
    let mut found: Option<Coin> = None;
    let mut i: usize = 0;
    while i < routes.len()
        invariant
            i <= routes.len(),
            rv == routes_view(routes@),
            colls == p.collaterals@,
            colls.len() == rv.len(),
            p.collaterals.entries@.len() == colls.len(),
            opt_coin(found) == native_coin(colls.take(i as int), rv.take(i as int)),
        decreases routes.len() - i,
    {
        assert(colls.take(i + 1).drop_last() =~= colls.take(i as int));
        assert(rv.take(i + 1).drop_last() =~= rv.take(i as int));
        let entry = &p.collaterals.entries[i];
        assert(colls[i as int] == (entry.0@, entry.1));
        if let Route::Native = &routes[i] {
            found = Some(Coin { denom: entry.0.clone(), amount: entry.1 });
        }
        i = i + 1;
    }
    assert(colls.take(routes.len() as int) =~= colls);
    assert(rv.take(routes.len() as int) =~= rv);
    found
}

fn share_funds(fee: &Option<Coin>, per: u128) -> (r: Vec<Coin>)
    ensures
        coins_view(r@) == share_view(*fee, per),
{
    let mut v: Vec<Coin> = Vec::new();
    if let Some(f) = fee {
        v.push(Coin { denom: f.denom.clone(), amount: per });
    }
    assert(coins_view(v@) =~= share_view(*fee, per));
    v
}

/// The bridging message of every token collateral, and the position as the remote chain records it.
fn fan_out(
    p: &Position,
    routes: &Vec<Route>,
    chain: &String,
    remote_market: &String,
    fee: &Option<Coin>,
    per: u128,
    dest_denom: &String,
) -> (r: (Vec<MarketMsg>, Position))
    requires
        routes@.len() == p.collaterals@.len(),
    ensures
        msgs_view(r.0@) == bridge_legs(
            p.collaterals@,
            routes_view(routes@),
            chain@,
            remote_market@,
            share_view(*fee, per),
        ),
        r.1@ == (PositionView {
            loan: p.loan,
            collaterals: translate(p.collaterals@, routes_view(routes@), dest_denom@),
        }),
        position_ok(r.1@),
{
    let ghost rv = routes_view(routes@);
    let ghost colls = p.collaterals@;
    let ghost share = share_view(*fee, per);
    let mut out: Vec<MarketMsg> = Vec::new();
    let mut dest: Table<String, u128> = Table::new();
    assert(rv.take(0) =~= Seq::<RouteView>::empty());
    assert(colls.take(0) =~= Seq::<(Seq<char>, u128)>::empty());
    assert(msgs_view(out@) =~= Seq::<MarketMsgView>::empty());
    let mut i: usize = 0;
    while i < routes.len()
        invariant
            i <= routes.len(),
            rv == routes_view(routes@),
            colls == p.collaterals@,
            share == share_view(*fee, per),
            colls.len() == rv.len(),
            p.collaterals.entries@.len() == colls.len(),
            msgs_view(out@) == bridge_legs(colls.take(i as int), rv.take(i as int), chain@, remote_market@, share),
            dest@ == translate(colls.take(i as int), rv.take(i as int), dest_denom@),
            dest.wf(),
        decreases routes.len() - i,
    {
        assert(colls.take(i + 1).drop_last() =~= colls.take(i as int));
        assert(rv.take(i + 1).drop_last() =~= rv.take(i as int));
        let entry = &p.collaterals.entries[i];
        assert(colls[i as int] == (entry.0@, entry.1));
        match &routes[i] {
            Route::Native => {
                dest.insert(dest_denom.clone(), entry.1);
            },
            Route::Token { remote } => {
                dest.insert(remote.clone(), entry.1);
                let funds = share_funds(fee, per);
                let ghost before = out@;
                let msg = MarketMsg::GateBridge {
                    token: entry.0.clone(),
                    chain: chain.clone(),
                    remote_receiver: remote_market.clone(),
                    amount: entry.1,
                    funds,
                };
                out.push(msg);
                assert(msgs_view(out@) =~= msgs_view(before).push(msg@));
            },
        }
        i = i + 1;
    }
    assert(colls.take(routes.len() as int) =~= colls);
    assert(rv.take(routes.len() as int) =~= rv);
    (out, Position { loan: p.loan, collaterals: dest })
}

/// Sum of the collateral amounts.
pub open spec fn total(colls: Seq<(Seq<char>, u128)>) -> int
    decreases colls.len(),
{
    if colls.len() == 0 {
        0
    } else {
        total(colls.drop_last()) + colls.last().1
    }
}

pub open spec fn route_keys(routes: Seq<RouteView>, dest_denom: Seq<char>) -> Seq<Seq<char>> {
    routes.map_values(|r: RouteView| route_key(r, dest_denom))
}

proof fn lemma_total_same_amounts(s: Seq<(Seq<char>, u128)>, t: Seq<(Seq<char>, u128)>)
    requires
        s.len() == t.len(),
        forall|j: int| 0 <= j < s.len() ==> s[j].1 == t[j].1,
    ensures
        total(s) == total(t),
    decreases s.len(),
{
    if s.len() > 0 {
        lemma_total_same_amounts(s.drop_last(), t.drop_last());
    }
}

proof fn lemma_translate(colls: Seq<(Seq<char>, u128)>, routes: Seq<RouteView>, dest_denom: Seq<char>)
    requires
        colls.len() == routes.len(),
    ensures
        keys_unique(translate(colls, routes, dest_denom)),
        route_keys(routes, dest_denom).no_duplicates() ==> translate(colls, routes, dest_denom)
            =~= Seq::new(colls.len(), |j: int| (route_key(routes[j], dest_denom), colls[j].1)),
    decreases colls.len(),
{
    if colls.len() > 0 {
        let c2 = colls.drop_last();
        let r2 = routes.drop_last();
        lemma_translate(c2, r2, dest_denom);
        let t = translate(c2, r2, dest_denom);
        let k = route_key(routes.last(), dest_denom);
        lemma_assign(t, k, colls.last().1);
        let keys = route_keys(routes, dest_denom);
        if keys.no_duplicates() {
            assert(route_keys(r2, dest_denom) =~= keys.drop_last());
            assert(route_keys(r2, dest_denom).no_duplicates());
            lemma_find_key(t, k);
            assert forall|j: int| 0 <= j < t.len() implies t[j].0 != k by {
                assert(t[j].0 == keys[j]);
                assert(k == keys[colls.len() - 1]);
            }
        }
    }
}

proof fn lemma_translate_len(colls: Seq<(Seq<char>, u128)>, routes: Seq<RouteView>, dest_denom: Seq<char>)
    requires
        colls.len() == routes.len(),
    ensures
        translate(colls, routes, dest_denom).len() <= colls.len(),
        translate(colls, routes, dest_denom).len() == colls.len() ==> route_keys(routes, dest_denom).no_duplicates(),
    decreases colls.len(),
{
    if colls.len() > 0 {
        let c2 = colls.drop_last();
        let r2 = routes.drop_last();
        lemma_translate_len(c2, r2, dest_denom);
        lemma_translate(c2, r2, dest_denom);
        let t = translate(c2, r2, dest_denom);
        let k = route_key(routes.last(), dest_denom);
        lemma_assign(t, k, colls.last().1);
        let keys = route_keys(routes, dest_denom);
        assert(route_keys(r2, dest_denom) =~= keys.drop_last());
        if translate(colls, routes, dest_denom).len() == colls.len() {
            assert(lookup(t, k) is None);
            lemma_find_key(t, k);
            assert forall|i: int, j: int| 0 <= i < keys.len() && 0 <= j < keys.len() && i != j implies keys[i]
                != keys[j] by {
                if i < keys.len() - 1 && j < keys.len() - 1 {
                    assert(keys.drop_last()[i] == keys[i] && keys.drop_last()[j] == keys[j]);
                } else if i == keys.len() - 1 {
                    assert(t[j].0 == keys[j]);
                } else {
                    assert(t[i].0 == keys[i]);
                }
            }
        }
    }
}

/// Saga atomicity, compensation side: after a successful collect the sender holds no
/// position, and delivering the failure report for the payload it produced puts back
/// exactly the position that was locked.
pub proof fn lemma_collect_then_revert(
    m: MarketView,
    caller: Seq<char>,
    funds: Seq<CoinView>,
    sender: Seq<char>,
    to_remote_addr: Seq<char>,
    chain: Seq<char>,
    native_info: Option<NativeInfoView>,
    routes: Seq<RouteView>,
)
    requires
        market_ok(m),
        collect_outcome(m, caller, funds, sender, to_remote_addr, chain, native_info, routes) is Ok,
    ensures
        ({
            let (after, out) = collect_outcome(
                m,
                caller,
                funds,
                sender,
                to_remote_addr,
                chain,
                native_info,
                routes,
            )->Ok_0;
            &&& lookup(after.ledger, sender) is None
            &&& out.last() matches MarketMsgView::SendRequests { bridge, .. }
            &&& bridge.sender == sender
            &&& revert_outcome(after, caller, bridge) matches Ok(restored)
            &&& lookup(restored.ledger, sender) == lookup(m.ledger, sender)
        }),
{
    let p = lookup(m.ledger, sender)->Some_0;
    lemma_find_key(m.ledger, sender);
    crate::table::lemma_erase(m.ledger, sender);
    crate::ledger::lemma_credit_fresh(p);
    crate::ledger::lemma_ledger_erase(m.ledger, sender);
    lemma_assign(erase(m.ledger, sender), sender, p);
}

/// Saga atomicity, arrival side: delivering the payload of a successful collect to a
/// receiver without a position gives it the locked loan, each collateral's amount under
/// its remote key, and so the same collateral total.
pub proof fn lemma_collect_then_receive(
    m: MarketView,
    caller: Seq<char>,
    funds: Seq<CoinView>,
    sender: Seq<char>,
    to_remote_addr: Seq<char>,
    chain: Seq<char>,
    native_info: Option<NativeInfoView>,
    routes: Seq<RouteView>,
    remote: MarketView,
    remote_caller: Seq<char>,
)
    requires
        market_ok(m),
        collect_outcome(m, caller, funds, sender, to_remote_addr, chain, native_info, routes) is Ok,
        market_ok(remote),
        gate_check(remote, remote_caller) is Ok,
        lookup(remote.ledger, to_remote_addr) is None,
    ensures
        ({
            let (after, out) = collect_outcome(
                m,
                caller,
                funds,
                sender,
                to_remote_addr,
                chain,
                native_info,
                routes,
            )->Ok_0;
            let locked = lookup(m.ledger, sender)->Some_0;
            &&& out.last() matches MarketMsgView::SendRequests { bridge, .. }
            &&& receive_outcome(remote, remote_caller, bridge) matches Ok(arrived)
            &&& lookup(arrived.ledger, to_remote_addr) matches Some(q)
            &&& q.loan == locked.loan
            &&& q.collaterals == Seq::new(
                locked.collaterals.len(),
                |j: int| (route_key(routes[j], dest_denom_of(native_info)), locked.collaterals[j].1),
            )
            &&& total(q.collaterals) == total(locked.collaterals)
        }),
{
    let p = lookup(m.ledger, sender)->Some_0;
    let dd = dest_denom_of(native_info);
    lemma_find_key(m.ledger, sender);
    lemma_translate(p.collaterals, routes, dd);
    let t = translate(p.collaterals, routes, dd);
    lemma_total_same_amounts(t, p.collaterals);
    let dest = PositionView { loan: p.loan, collaterals: t };
    crate::ledger::lemma_credit_fresh(dest);
    lemma_assign(remote.ledger, to_remote_addr, dest);
}

#[derive(Debug, PartialEq, Eq)]
pub struct InstantiateMsg {}

#[derive(Debug, PartialEq, Eq)]
pub struct MigrateMsg {}

/// What a token contract asks of the market when it sends tokens.
#[derive(Debug, PartialEq, Eq)]
pub enum Cw20MsgType {
    Deposit {},
}

impl Position {
    /// A position can be bridged when at most one of its collaterals is chain-native;
    /// `routes` tells, collateral by collateral, which are.
    pub fn is_bridgable(&self, routes: &Vec<Route>) -> (r: Result<(), ContractError>)
        ensures
            r is Ok <==> native_count(routes_view(routes@)) <= 1,
            r matches Err(e) ==> e == ContractError::NotBridgable,
    {
        if count_natives(routes) > 1 {
            Err(ContractError::NotBridgable)
        } else {
            Ok(())
        }
    }
}

impl Market {
    pub open spec fn wf(&self) -> bool {
        self.chains.wf() && self.ledger.wf()
    }

    /// A market owned by `owner`, with no gate, no chains and no positions.
    pub fn instantiate(owner: String) -> (r: Market)
        ensures
            r.wf(),
            r@.owner == owner@,
            r@.gate is None,
            r@.chains.len() == 0,
            r@.ledger.len() == 0,
    {
        Market { owner, gate: None, chains: Table::new(), ledger: Ledger::new() }
    }

    fn only_owner(&self, caller: &String) -> (r: Result<(), ContractError>)
        ensures
            r == owner_check(self@, caller@),
    {
        if self.owner == *caller {
            Ok(())
        } else {
            Err(ContractError::Unauthorized)
        }
    }

    fn only_gate(&self, caller: &String) -> (r: Result<(), ContractError>)
        ensures
            r == gate_check(self@, caller@),
    {
        match &self.gate {
            None => Err(ContractError::GateNotRegistered),
            Some(g) => if *g == *caller {
                Ok(())
            } else {
                Err(ContractError::Unauthorized)
            },
        }
    }

    /// The owner registers its gate contract.
    pub fn register_gate(&mut self, sender: &String, contract: String) -> (r: Result<(), ContractError>)
        requires
            old(self).wf(),
        ensures
            final(self).wf(),
            r == owner_check(old(self)@, sender@),
            r is Ok ==> final(self)@ == (MarketView { gate: Some(contract@), ..old(self)@ }),
            r is Err ==> final(self)@ == old(self)@,
    {
        match self.only_owner(sender) {
            Err(e) => Err(e),
            Ok(()) => {
                self.gate = Some(contract);
                Ok(())
            },
        }
    }

    /// The owner records the remote market of `chain` and asks its gate to accept only it.
    pub fn gate_set_permission(&mut self, sender: &String, contract: String, chain: String) -> (r:
        Result<MarketMsg, ContractError>)
        requires
            old(self).wf(),
        ensures
            final(self).wf(),
            match r {
                Ok(msg) => owner_check(old(self)@, sender@) is Ok && old(self)@.gate is Some
                    && final(self)@ == (MarketView {
                    chains: assign(old(self)@.chains, chain@, contract@),
                    ..old(self)@
                }) && msg@ == (MarketMsgView::SetPermission {
                    gate: old(self)@.gate->Some_0,
                    chain: chain@,
                    addresses: seq![contract@],
                }),
                Err(e) => final(self)@ == old(self)@ && if owner_check(old(self)@, sender@) is Err {
                    e == ContractError::Unauthorized
                } else {
                    old(self)@.gate is None && e == ContractError::GateNotRegistered
                },
            },
    {
        if let Err(e) = self.only_owner(sender) {
            return Err(e);
        }
        let gate = match &self.gate {
            Some(g) => g.clone(),
            None => {
                return Err(ContractError::GateNotRegistered);
            },
        };
        let mut addresses: Vec<String> = Vec::new();
        addresses.push(contract.clone());
        assert(strings_view(addresses@) =~= seq![contract@]);
        self.chains.insert(chain.clone(), contract);
        Ok(MarketMsg::SetPermission { gate, chain, addresses })
    }

    /// Deposits the one coin that came with the call.
    pub fn deposit(&mut self, sender: &String, funds: Vec<Coin>) -> (r: Result<(), ContractError>)
        requires
            old(self).wf(),
        ensures
            final(self).wf(),
            funds@.len() == 0 ==> r == Err::<(), ContractError>(ContractError::NoFunds) && final(self)@
                == old(self)@,
            funds@.len() > 1 ==> r == Err::<(), ContractError>(ContractError::TooManyCoins)
                && final(self)@ == old(self)@,
            funds@.len() == 1 ==> {
                let o = deposit_outcome(lookup(old(self)@.ledger, sender@), funds@[0].denom@, funds@[0].amount);
                &&& r is Ok <==> o is Ok
                &&& r matches Err(e) ==> o == Err::<PositionView, ContractError>(e)
                &&& final(self)@ == with_ledger(old(self)@, settle(old(self)@.ledger, sender@, o))
            },
    {
        let coin = match onecoin(funds) {
            Err(e) => {
                return Err(e);
            },
            Ok(None) => {
                return Err(ContractError::NoFunds);
            },
            Ok(Some(c)) => c,
        };
        self.ledger.user_deposit(sender, coin.amount, &coin.denom)
    }

    /// Deposits tokens that a token contract sent on behalf of `sender`; the contract's
    /// address names the denomination.
    pub fn receive_cw20(&mut self, token: &String, sender: &String, amount: u128, msg: Cw20MsgType) -> (r: Result<
        (),
        ContractError,
    >)
        requires
            old(self).wf(),
        ensures
            final(self).wf(),
            r is Ok <==> deposit_outcome(lookup(old(self)@.ledger, sender@), token@, amount) is Ok,
            r matches Err(e) ==> deposit_outcome(lookup(old(self)@.ledger, sender@), token@, amount)
                == Err::<PositionView, ContractError>(e),
            final(self)@ == with_ledger(
                old(self)@,
                settle(old(self)@.ledger, sender@, deposit_outcome(lookup(old(self)@.ledger, sender@), token@, amount)),
            ),
    {
        match msg {
            Cw20MsgType::Deposit {} => self.ledger.user_deposit(sender, amount, token),
        }
    }

    /// Withdraws collateral and sends it back through its token contract.
    pub fn withdraw(&mut self, user: &String, denom: String, amount: Option<u128>) -> (r: Result<
        MarketMsg,
        ContractError,
    >)
        requires
            old(self).wf(),
        ensures
            final(self).wf(),
            match r {
                Ok(msg) => withdraw_outcome(lookup(old(self)@.ledger, user@), denom@, amount) matches Ok(o)
                    && final(self)@ == with_ledger(old(self)@, assign(old(self)@.ledger, user@, o.0))
                    && msg@ == (MarketMsgView::Cw20Transfer {
                    contract: denom@,
                    recipient: user@,
                    amount: o.1,
                }),
                Err(e) => withdraw_outcome(lookup(old(self)@.ledger, user@), denom@, amount) == Err::<
                    (PositionView, u128),
                    ContractError,
                >(e) && final(self)@ == old(self)@,
            },
    {
        match self.ledger.user_withdraw(user, amount, &denom) {
            Err(e) => Err(e),
            Ok(w) => Ok(MarketMsg::Cw20Transfer { contract: denom, recipient: user.clone(), amount: w }),
        }
    }

    pub fn increase_loan(&mut self, user: &String, amount: u128) -> (r: Result<(), ContractError>)
        requires
            old(self).wf(),
        ensures
            final(self).wf(),
            r is Ok <==> increase_loan_outcome(lookup(old(self)@.ledger, user@), amount) is Ok,
            r matches Err(e) ==> increase_loan_outcome(lookup(old(self)@.ledger, user@), amount)
                == Err::<PositionView, ContractError>(e),
            final(self)@ == with_ledger(
                old(self)@,
                settle(old(self)@.ledger, user@, increase_loan_outcome(lookup(old(self)@.ledger, user@), amount)),
            ),
    {
        self.ledger.user_increase_loan(user, amount)
    }

    pub fn repay_loan(&mut self, user: &String, amount: Option<u128>) -> (r: Result<(), ContractError>)
        requires
            old(self).wf(),
        ensures
            final(self).wf(),
            r is Ok <==> decrease_loan_outcome(lookup(old(self)@.ledger, user@), amount) is Ok,
            r matches Err(e) ==> decrease_loan_outcome(lookup(old(self)@.ledger, user@), amount)
                == Err::<PositionView, ContractError>(e),
            final(self)@ == with_ledger(
                old(self)@,
                settle(old(self)@.ledger, user@, decrease_loan_outcome(lookup(old(self)@.ledger, user@), amount)),
            ),
    {
        self.ledger.user_decrease_loan(user, amount)
    }

    /// Its gate collects the bridge-out of `sender`'s position: the position leaves the
    /// ledger and the messages that carry it to `chain` come back. `routes` gives, for each
    /// collateral in order, whether it is the chain-native asset or a token, and the token's
    /// counterpart on `chain`.
    pub fn gate_collect_requests(
        &mut self,
        caller: &String,
        funds: Vec<Coin>,
        sender: &String,
        msg: GateCollectMsgsAllowed,
        routes: Vec<Route>,
    ) -> (r: Result<Vec<MarketMsg>, ContractError>)
        requires
            old(self).wf(),
        ensures
            final(self).wf(),
            match r {
                Ok(out) => collect_outcome(
                    old(self)@,
                    caller@,
                    coins_view(funds@),
                    sender@,
                    msg->to_remote_addr@,
                    msg->chain@,
                    opt_native_info(msg->native_info),
                    routes_view(routes@),
                ) == Ok::<(MarketView, Seq<MarketMsgView>), ContractError>((final(self)@, msgs_view(out@))),
                Err(e) => collect_outcome(
                    old(self)@,
                    caller@,
                    coins_view(funds@),
                    sender@,
                    msg->to_remote_addr@,
                    msg->chain@,
                    opt_native_info(msg->native_info),
                    routes_view(routes@),
                ) == Err::<(MarketView, Seq<MarketMsgView>), ContractError>(e) && final(self)@ == old(self)@,
            },
    {
        let GateCollectMsgsAllowed::BridgePosition { to_remote_addr, chain, native_info } = msg;
        if let Err(e) = self.only_gate(caller) {
            return Err(e);
        }
        let fee = match onecoin(funds) {
            Err(e) => {
                return Err(e);
            },
            Ok(f) => f,
        };
        let position = match self.ledger.position(sender) {
            Some(p) => p.clone(),
            None => {
                return Err(ContractError::UserNotFound);
            },
        };
        if routes.len() != position.collaterals.len() {
            return Err(ContractError::RoutesMismatch);
        }
        if let Err(e) = position.is_bridgable(&routes) {
            return Err(e);
        }
        let natives = count_natives(&routes);
        if natives == 1 && native_info.is_none() {
            return Err(ContractError::NativeInfoMissing);
        }
        let remote_market = match self.chains.get(&chain) {
            Some(c) => c.clone(),
            None => {
                return Err(ContractError::ChainNotRegistered);
            },
        };
        let legs = routes.len() - natives;
        let native = find_native(&position, &routes);
        let (per, rest) = match &fee {
            Some(f) => split_fee(f.amount, legs),
            None => (0, 0),
        };
        let mut saga_funds: Vec<Coin> = Vec::new();
        match &fee {
            Some(f) => match &native {
                None => {
                    saga_funds.push(Coin { denom: f.denom.clone(), amount: rest });
                },
                Some(n) => {
                    if n.denom == f.denom {
                        if rest > u128::MAX - n.amount {
                            return Err(ContractError::Overflow);
                        }
                        saga_funds.push(Coin { denom: f.denom.clone(), amount: rest + n.amount });
                    } else {
                        saga_funds.push(Coin { denom: f.denom.clone(), amount: rest });
                        saga_funds.push(n.clone());
                    }
                },
            },
            None => {
                if let Some(n) = &native {
                    saga_funds.push(n.clone());
                }
            },
        }
        let ghost legs_n = (routes@.len() - native_count(routes_view(routes@))) as nat;
        assert(coins_view(saga_funds@) =~= bridge_funds(opt_coin(fee), legs_n, opt_coin(native)));
        assert(share_view(fee, per) =~= fee_share(opt_coin(fee), legs_n));
        let dest_denom = match &native_info {
            Some(i) => i.dest_denom.clone(),
            None => String::new(),
        };
        let (mut out, dest) = fan_out(&position, &routes, &chain, &remote_market, &fee, per, &dest_denom);
        proof {
            lemma_translate(position.collaterals@, routes_view(routes@), dest_denom@);
            lemma_translate_len(position.collaterals@, routes_view(routes@), dest_denom@);
        }
        if dest.collaterals.len() != position.collaterals.len() {
            return Err(ContractError::RouteCollision);
        }
        let send_native = match (native, native_info) {
            (Some(c), Some(info)) => Some(
                SendNativeInfo {
                    coin: c,
                    path_middle_forward: info.path_middle_forward,
                    dest_denom: info.dest_denom,
                    channel_id: info.channel_id,
                    timeout: info.timeout,
                },
            ),
            _ => None,
        };
        let gate = match &self.gate {
            Some(g) => g.clone(),
            None => {
                return Err(ContractError::GateNotRegistered);
            },
        };
        let bridge = BridgeMsgInfo {
            sender: sender.clone(),
            receiver: to_remote_addr,
            src_position: position,
            dest_position: dest,
        };
        let last = MarketMsg::SendRequests {
            gate,
            chain,
            to_contract: remote_market,
            bridge,
            send_native,
            funds: saga_funds,
        };
        let ghost before = out@;
        out.push(last);
        assert(msgs_view(out@) =~= msgs_view(before).push(last@));
        self.ledger.take(sender);
        Ok(out)
    }

    /// Its gate reports that the remote leg failed: the locked position goes back to its sender.
    pub fn gate_revert_request(&mut self, caller: &String, bridge: &BridgeMsgInfo) -> (r: Result<
        (),
        ContractError,
    >)
        requires
            old(self).wf(),
        ensures
            final(self).wf(),
            match r {
                Ok(()) => revert_outcome(old(self)@, caller@, bridge@) == Ok::<MarketView, ContractError>(
                    final(self)@,
                ),
                Err(e) => revert_outcome(old(self)@, caller@, bridge@) == Err::<MarketView, ContractError>(e)
                    && final(self)@ == old(self)@,
            },
    {
        if let Err(e) = self.only_gate(caller) {
            return Err(e);
        }
        self.ledger.credit(&bridge.sender, &bridge.src_position)
    }

    /// Its gate delivers a bridged position: it is credited to its receiver here.
    pub fn gate_receive_msg(&mut self, caller: &String, bridge: &BridgeMsgInfo) -> (r: Result<
        (),
        ContractError,
    >)
        requires
            old(self).wf(),
        ensures
            final(self).wf(),
            match r {
                Ok(()) => receive_outcome(old(self)@, caller@, bridge@) == Ok::<MarketView, ContractError>(
                    final(self)@,
                ),
                Err(e) => receive_outcome(old(self)@, caller@, bridge@) == Err::<MarketView, ContractError>(e)
                    && final(self)@ == old(self)@,
            },
    {
        if let Err(e) = self.only_gate(caller) {
            return Err(e);
        }
        self.ledger.credit(&bridge.receiver, &bridge.dest_position)
    }

    /// The principal's position.
    pub fn qy_position(&self, user: &String) -> (r: Result<Position, ContractError>)
        ensures
            match r {
                Ok(p) => lookup(self@.ledger, user@) == Some(p@),
                Err(e) => lookup(self@.ledger, user@) is None && e == ContractError::UserNotFound,
            },
    {
        match self.ledger.position(user) {
            Some(p) => Ok(p.clone()),
            None => Err(ContractError::UserNotFound),
        }
    }
}

} // verus!
