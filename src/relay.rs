//! The packet relay: a transfer is requested and escrowed, its dispatch is confirmed
//! with a sequence number, and its acknowledgement or timeout settles it, refunding the
//! sender on failure. Also the receiving end, and the forwarding envelope that ties them.

use vstd::prelude::*;
use crate::coin::{Coin, CoinView, coins_view};
use crate::table::{Table, lookup, assign, erase, lemma_find_key};
use crate::proto::{decode_transfer_response, transfer_response_sequence};
use crate::paging::{LogEntry, get_last_items, page, entries_view, log_view};

verus! {

broadcast use vstd::string::group_string_axioms;

/// Seconds a dispatched transfer may take before it times out: seven days.
pub const TRANSFER_TIMEOUT_SECONDS: u64 = 604_800;

/// Relies on cosmwasm_std::Timestamp::plus_seconds and nanos: the time `seconds` after
/// `now_nanos`, in nanoseconds; it panics where that leaves the range of `u64`.
#[verifier::external_body]
fn nanos_after(now_nanos: u64, seconds: u64) -> (r: u64)
    requires
        now_nanos + seconds * 1_000_000_000 <= u64::MAX,
    ensures
        r == now_nanos + seconds * 1_000_000_000,
{
    cosmwasm_std::Timestamp::from_nanos(now_nanos).plus_seconds(seconds).nanos()
}

/// Why a call of the relay is refused; every refusal leaves the relay as it was.
#[derive(Debug, Clone, Copy, PartialEq, Eq)]
pub enum HookerError {
    /// A transfer needs exactly one coin.
    NotOneCoin,
    /// The receiving end was asked to refuse.
    NeedToFail,
    /// A reply carries an id under which no transfer awaits its dispatch confirmation.
    InvalidReplyId,
    /// The dispatch failed, or its confirmation carries no data.
    FailedReply,
    /// The dispatch confirmation could not be decoded.
    UndecodableResponse,
    /// An acknowledgement arrived for a packet that is not tracked.
    UnknownPacket,
    /// An audit log has used up its keys.
    LogFull,
}

/// An intermediate relay through which the funds are forwarded.
#[derive(Debug, PartialEq, Eq)]
pub struct Forward {
    pub receiver: String,
    pub channel: String,
}

/// The calls this contract takes.
#[derive(Debug, PartialEq, Eq)]
pub enum ExecuteMsg {
    Request {
        channel_id: String,
        to_fail: bool,
        receiver_ibc_hooker: String,
        to_address: String,
        forward: Option<Forward>,
    },
    ReceivedRequest { from_address: String, to_fail: bool, to_address: String },
}

#[derive(Debug, PartialEq, Eq)]
pub struct InstantiateMsg {}

#[derive(Debug, PartialEq, Eq)]
pub struct Config {
    pub src_channel: String,
}

/// A contract call carried by an envelope.
#[derive(Debug, PartialEq, Eq)]
pub struct WasmField<T> {
    pub contract: String,
    pub msg: T,
}

/// A hop that forwards the funds, with the envelope for what follows.
#[derive(Debug, PartialEq, Eq)]
pub struct ForwardField<T> {
    pub receiver: String,
    pub port: String,
    pub channel: String,
    pub next: Option<Box<MemoField<T>>>,
}

/// The forwarding envelope: a direct call or a forwarding hop, and where completion is reported.
#[derive(Debug, PartialEq, Eq)]
pub struct MemoField<T> {
    pub forward: Option<ForwardField<T>>,
    pub wasm: Option<WasmField<T>>,
    pub ibc_callback: Option<String>,
}

/// `msg` asks the receiving end to pass funds from `from` on to `to`.
pub open spec fn is_received_request(msg: ExecuteMsg, to_fail: bool, from: Seq<char>, to: Seq<char>) -> bool {
    &&& msg matches ExecuteMsg::ReceivedRequest { from_address, to_fail: f, to_address }
    &&& from_address@ == from
    &&& f == to_fail
    &&& to_address@ == to
}

/// The envelope of a transfer from `sender` to `to_address`, requested of contract `origin`.
/// Without a forward it calls `receiver` directly; with one, its outer layer forwards through
/// the hop and its inner layer calls the hop's receiver. Completion is always reported to
/// `origin`, however many hops the funds take.
pub open spec fn memo_is(
    memo: MemoField<ExecuteMsg>,
    origin: Seq<char>,
    sender: Seq<char>,
    receiver: Seq<char>,
    to_fail: bool,
    to_address: Seq<char>,
    forward: Option<Forward>,
) -> bool {
    &&& memo.ibc_callback matches Some(cb) && cb@ == origin
    &&& match forward {
        None => {
            &&& memo.forward is None
            &&& memo.wasm matches Some(w)
            &&& w.contract@ == receiver
            &&& is_received_request(w.msg, to_fail, sender, to_address)
        },
        Some(f) => {
            &&& memo.wasm is None
            &&& memo.forward matches Some(hop)
            &&& hop.receiver@ == f.receiver@
            &&& hop.port@ == "transfer"@
            &&& hop.channel@ == f.channel@
            &&& hop.next matches Some(inner)
            &&& inner.forward is None
            &&& inner.ibc_callback is None
            &&& inner.wasm matches Some(w)
            &&& w.contract@ == f.receiver@
            &&& is_received_request(w.msg, to_fail, sender, to_address)
        },
    }
}

/// Builds the forwarding envelope of a transfer.
pub fn build_memo(
    origin: &String,
    sender: &String,
    receiver: &String,
    to_fail: bool,
    to_address: &String,
    forward: Option<Forward>,
) -> (r: MemoField<ExecuteMsg>)
    ensures
        memo_is(r, origin@, sender@, receiver@, to_fail, to_address@, forward),
{
    let call = ExecuteMsg::ReceivedRequest {
        from_address: sender.clone(),
        to_fail,
        to_address: to_address.clone(),
    };
    match forward {
        Some(f) => {
            let inner = MemoField {
                forward: None,
                wasm: Some(WasmField { contract: f.receiver.clone(), msg: call }),
                ibc_callback: None,
            };
            MemoField {
                forward: Some(
                    ForwardField {
                        receiver: f.receiver,
                        port: "transfer".to_string(),
                        channel: f.channel,
                        next: Some(Box::new(inner)),
                    },
                ),
                wasm: None,
                ibc_callback: Some(origin.clone()),
            }
        },
        None => MemoField {
            forward: None,
            wasm: Some(WasmField { contract: receiver.clone(), msg: call }),
            ibc_callback: Some(origin.clone()),
        },
    }
}

/// The escrow of a requested transfer: where it left, who sent it, what it carried.
#[derive(Debug, PartialEq, Eq)]
pub struct RequestInfo {
    pub source_channel: String,
    pub sender: String,
    pub coin: Coin,
}

pub struct RequestInfoView {
    pub source_channel: Seq<char>,
    pub sender: Seq<char>,
    pub coin: CoinView,
}

impl View for RequestInfo {
    type V = RequestInfoView;

    open spec fn view(&self) -> RequestInfoView {
        RequestInfoView { source_channel: self.source_channel@, sender: self.sender@, coin: self.coin@ }
    }
}

impl Clone for RequestInfo {
    fn clone(&self) -> (r: Self)
        ensures
            r == *self,
    {
        RequestInfo {
            source_channel: self.source_channel.clone(),
            sender: self.sender.clone(),
            coin: self.coin.clone(),
        }
    }
}

/// A request that the receiving end accepted and passed on.
#[derive(Debug, PartialEq, Eq)]
pub struct ReceivedRequest {
    pub sender: String,
    pub funds: Vec<Coin>,
    pub to_fail: bool,
    pub from_address: String,
}

pub struct ReceivedRequestView {
    pub sender: Seq<char>,
    pub funds: Seq<CoinView>,
    pub to_fail: bool,
    pub from_address: Seq<char>,
}

impl View for ReceivedRequest {
    type V = ReceivedRequestView;

    open spec fn view(&self) -> ReceivedRequestView {
        ReceivedRequestView {
            sender: self.sender@,
            funds: coins_view(self.funds@),
            to_fail: self.to_fail,
            from_address: self.from_address@,
        }
    }
}

pub fn copy_coins(v: &Vec<Coin>) -> (r: Vec<Coin>)
    ensures
        coins_view(r@) == coins_view(v@),
{
    let mut r: Vec<Coin> = Vec::new();
    let mut i: usize = 0;
    while i < v.len()
        invariant
            i <= v.len(),
            r@.len() == i,
            forall|j: int| 0 <= j < i ==> r@[j] == v@[j],
        decreases v.len() - i,
    {
        r.push(v[i].clone());
        i = i + 1;
    }
    assert(coins_view(r@) =~= coins_view(v@));
    r
}

impl Clone for ReceivedRequest {
    fn clone(&self) -> (r: Self)
        ensures
            r@ == self@,
    {
        ReceivedRequest {
            sender: self.sender.clone(),
            funds: copy_coins(&self.funds),
            to_fail: self.to_fail,
            from_address: self.from_address.clone(),
        }
    }
}

/// How the transport reports that a packet completed.
#[derive(Debug, PartialEq, Eq)]
pub enum IBCLifecycleComplete {
    IBCAck { channel: String, sequence: u64, ack: String, success: bool },
    IBCTimeout { channel: String, sequence: u64 },
}

pub enum LifecycleView {
    Ack { channel: Seq<char>, sequence: u64, ack: Seq<char>, success: bool },
    Timeout { channel: Seq<char>, sequence: u64 },
}

impl View for IBCLifecycleComplete {
    type V = LifecycleView;

    open spec fn view(&self) -> LifecycleView {
        match self {
            IBCLifecycleComplete::IBCAck { channel, sequence, ack, success } => LifecycleView::Ack {
                channel: channel@,
                sequence: *sequence,
                ack: ack@,
                success: *success,
            },
            IBCLifecycleComplete::IBCTimeout { channel, sequence } => LifecycleView::Timeout {
                channel: channel@,
                sequence: *sequence,
            },
        }
    }
}

impl Clone for IBCLifecycleComplete {
    fn clone(&self) -> (r: Self)
        ensures
            r == *self,
    {
        match self {
            IBCLifecycleComplete::IBCAck { channel, sequence, ack, success } => IBCLifecycleComplete::IBCAck {
                channel: channel.clone(),
                sequence: *sequence,
                ack: ack.clone(),
                success: *success,
            },
            IBCLifecycleComplete::IBCTimeout { channel, sequence } => IBCLifecycleComplete::IBCTimeout {
                channel: channel.clone(),
                sequence: *sequence,
            },
        }
    }
}

/// The callbacks that the transport makes.
#[derive(Debug, PartialEq, Eq)]
pub enum SudoMsg {
    IBCLifecycleComplete(IBCLifecycleComplete),
}

/// The kinds of reply this contract awaits: only dispatch confirmations, whose correlation
/// ids are handed out from `SendPacket`'s representation on.
#[derive(Debug, Clone, Copy, PartialEq, Eq)]
pub enum MsgReplyID {
    SendPacket,
}

impl MsgReplyID {
    pub fn repr(&self) -> (r: u64)
        ensures
            r == 1,
    {
        1
    }

    pub fn from_repr(id: u64) -> (r: Option<MsgReplyID>)
        ensures
            r == (if id == 1 {
                Some(MsgReplyID::SendPacket)
            } else {
                None
            }),
    {
        if id == 1 {
            Some(MsgReplyID::SendPacket)
        } else {
            None
        }
    }
}

/// The cross-chain transfer to dispatch.
#[derive(Debug, PartialEq, Eq)]
pub struct MsgTransfer {
    pub source_port: String,
    pub source_channel: String,
    pub token: Coin,
    pub sender: String,
    pub receiver: String,
    pub timeout_timestamp: u64,
    pub memo: MemoField<ExecuteMsg>,
}

/// Funds sent to an address on this chain.
#[derive(Debug, PartialEq, Eq)]
pub struct BankSend {
    pub to_address: String,
    pub amount: Vec<Coin>,
}

/// The relay's whole state. Each log is keyed by position: its `i`-th entry has key `i + 1`.
pub struct Relay {
    /// Transfers awaiting their dispatch confirmation, by the id of the reply that confirms it.
    pub in_flight: Table<u64, RequestInfo>,
    /// The id the next request is given; every id in `in_flight` is below it.
    pub next_id: u64,
    /// Dispatched transfers by source channel and sequence, awaiting acknowledgement.
    pub awaiting: Table<(String, u64), RequestInfo>,
    pub ack_ok: Vec<IBCLifecycleComplete>,
    pub ack_failed: Vec<IBCLifecycleComplete>,
    pub response_ok: Vec<ReceivedRequest>,
}

pub struct RelayView {
    pub in_flight: Seq<(u64, RequestInfoView)>,
    pub next_id: u64,
    pub awaiting: Seq<((Seq<char>, u64), RequestInfoView)>,
    pub ack_ok: Seq<LifecycleView>,
    pub ack_failed: Seq<LifecycleView>,
    pub response_ok: Seq<ReceivedRequestView>,
}

pub open spec fn lifecycles_view(v: Seq<IBCLifecycleComplete>) -> Seq<LifecycleView> {
    v.map_values(|e: IBCLifecycleComplete| e@)
}

pub open spec fn received_view(v: Seq<ReceivedRequest>) -> Seq<ReceivedRequestView> {
    v.map_values(|e: ReceivedRequest| e@)
}

impl View for Relay {
    type V = RelayView;

    open spec fn view(&self) -> RelayView {
        RelayView {
            in_flight: self.in_flight@,
            next_id: self.next_id,
            awaiting: self.awaiting@,
            ack_ok: lifecycles_view(self.ack_ok@),
            ack_failed: lifecycles_view(self.ack_failed@),
            response_ok: received_view(self.response_ok@),
        }
    }
}

/// Keys of every log fit in `u64`; every pending id is below the next one.
pub open spec fn relay_ok(r: RelayView) -> bool {
    &&& crate::table::keys_unique(r.awaiting)
    &&& crate::table::keys_unique(r.in_flight)
    &&& forall|i: int| 0 <= i < r.in_flight.len() ==> #[trigger] r.in_flight[i].0 < r.next_id
    &&& r.ack_ok.len() < u64::MAX
    &&& r.ack_failed.len() < u64::MAX
    &&& r.response_ok.len() < u64::MAX
}

/// The relay after an acknowledgement of success for `(channel, sequence)`.
pub open spec fn ack_ok_outcome(r: RelayView, channel: Seq<char>, sequence: u64, ack: Seq<char>) -> Result<
    RelayView,
    HookerError,
> {
    if r.ack_ok.len() + 1 >= u64::MAX {
        Err(HookerError::LogFull)
    } else {
        Ok(
            RelayView {
                ack_ok: r.ack_ok.push(LifecycleView::Ack { channel, sequence, ack, success: true }),
                awaiting: erase(r.awaiting, (channel, sequence)),
                ..r
            },
        )
    }
}

/// The relay after a failed acknowledgement (or a timeout) for `(channel, sequence)`, and
/// the refund of the escrowed coin to its original sender.
pub open spec fn ack_failed_outcome(r: RelayView, channel: Seq<char>, sequence: u64, ack: Seq<char>) -> Result<
    (RelayView, (Seq<char>, Seq<CoinView>)),
    HookerError,
> {
    match lookup(r.awaiting, (channel, sequence)) {
        None => Err(HookerError::UnknownPacket),
        Some(info) => if r.ack_failed.len() + 1 >= u64::MAX {
            Err(HookerError::LogFull)
        } else {
            Ok(
                (
                    RelayView {
                        ack_failed: r.ack_failed.push(
                            LifecycleView::Ack { channel, sequence, ack, success: false },
                        ),
                        awaiting: erase(r.awaiting, (channel, sequence)),
                        ..r
                    },
                    (info.sender, seq![info.coin]),
                ),
            )
        },
    }
}

pub open spec fn bank_send_view(b: BankSend) -> (Seq<char>, Seq<CoinView>) {
    (b.to_address@, coins_view(b.amount@))
}

/// The relay once the transfer pending under `id` is tracked under its channel and `sequence`.
pub open spec fn confirm_outcome(r: RelayView, id: u64, sequence: u64) -> Result<RelayView, HookerError> {
    match lookup(r.in_flight, id) {
        None => Err(HookerError::InvalidReplyId),
        Some(info) => Ok(
            RelayView {
                in_flight: erase(r.in_flight, id),
                awaiting: assign(r.awaiting, (info.source_channel, sequence), info),
                ..r
            },
        ),
    }
}

/// A reply from the transport: which request it answers, and the response data when the
/// dispatch succeeded.
pub open spec fn reply_outcome(r: RelayView, id: u64, data: Option<Seq<u8>>) -> Result<
    (RelayView, u64),
    HookerError,
> {
    if lookup(r.in_flight, id) is None {
        Err(HookerError::InvalidReplyId)
    } else {
        match data {
            None => Err(HookerError::FailedReply),
            Some(b) => match transfer_response_sequence(b) {
                None => Err(HookerError::UndecodableResponse),
                Some(seq) => match confirm_outcome(r, id, seq) {
                    Ok(next) => Ok((next, seq)),
                    Err(e) => Err(e),
                },
            },
        }
    }
}

pub open spec fn opt_bytes(o: Option<Vec<u8>>) -> Option<Seq<u8>> {
    match o {
        Some(v) => Some(v@),
        None => None,
    }
}

impl LogEntry for IBCLifecycleComplete {
    fn duplicate(&self) -> (r: Self) {
        self.clone()
    }
}

impl LogEntry for ReceivedRequest {
    fn duplicate(&self) -> (r: Self) {
        self.clone()
    }
}

/// The queries this contract answers.
#[derive(Debug, PartialEq, Eq)]
pub enum QueryMsg {
    State {},
}

/// The newest page of each log.
#[derive(Debug, PartialEq, Eq)]
pub enum QueryResponse {
    State {
        response_ok: Vec<(u64, ReceivedRequest)>,
        ack_ok: Vec<(u64, IBCLifecycleComplete)>,
        ack_failed: Vec<(u64, IBCLifecycleComplete)>,
    },
}

/// What a call of the contract sends out.
#[derive(Debug, PartialEq, Eq)]
pub enum HookerResponse {
    /// A transfer to dispatch, with the correlation id its dispatch reply must carry.
    Transfer(u64, MsgTransfer),
    Send(BankSend),
}

/// What `run_request` promises: refused without exactly one coin; otherwise the coin is
/// escrowed under a fresh correlation id, returned with the transfer to dispatch.
pub open spec fn request_reported(
    before: RelayView,
    after: RelayView,
    origin: Seq<char>,
    now_nanos: u64,
    sender: Seq<char>,
    funds: Seq<Coin>,
    channel_id: Seq<char>,
    receiver: Seq<char>,
    to_fail: bool,
    to_address: Seq<char>,
    forward: Option<Forward>,
    r: Result<(u64, MsgTransfer), HookerError>,
) -> bool {
    &&& funds.len() != 1 ==> r == Err::<(u64, MsgTransfer), HookerError>(HookerError::NotOneCoin)
        && after == before
    &&& funds.len() == 1 ==> r is Ok && after == (RelayView {
        in_flight: assign(
            before.in_flight,
            before.next_id,
            RequestInfoView { source_channel: channel_id, sender, coin: funds[0]@ },
        ),
        next_id: (before.next_id + 1) as u64,
        ..before
    })
    &&& r matches Ok(d) ==> d.0 == before.next_id && lookup(before.in_flight, d.0) is None && {
        let t = d.1;
        &&& t.source_port@ == "transfer"@
        &&& t.source_channel@ == channel_id
        &&& t.token@ == funds[0]@
        &&& t.sender@ == origin
        &&& t.receiver@ == receiver
        &&& t.timeout_timestamp == now_nanos + TRANSFER_TIMEOUT_SECONDS * 1_000_000_000
        &&& memo_is(t.memo, origin, sender, receiver, to_fail, to_address, forward)
    }
}

/// What `run_received_request` promises.
pub open spec fn received_reported(
    before: RelayView,
    after: RelayView,
    sender: Seq<char>,
    funds: Seq<CoinView>,
    to_fail: bool,
    from_address: Seq<char>,
    to_address: Seq<char>,
    r: Result<BankSend, HookerError>,
) -> bool {
    &&& to_fail ==> r == Err::<BankSend, HookerError>(HookerError::NeedToFail) && after == before
    &&& !to_fail && before.response_ok.len() + 1 >= u64::MAX ==> r == Err::<BankSend, HookerError>(
        HookerError::LogFull,
    ) && after == before
    &&& !to_fail && before.response_ok.len() + 1 < u64::MAX ==> (r matches Ok(b) && bank_send_view(b)
        == (to_address, funds)) && after == (RelayView {
        response_ok: before.response_ok.push(
            ReceivedRequestView { sender, funds, to_fail: false, from_address },
        ),
        ..before
    })
}

/// Relay resolution: once a requested transfer pending under `id` has its dispatch
/// confirmed with a sequence number, it is tracked under its channel and that sequence. A success
/// report then drops it without a refund, and a failure or timeout report drops it and
/// refunds exactly the escrowed coin to its original sender; after either one, a failure
/// report for the same packet is refused, so the coin is refunded at most once.
pub proof fn lemma_relay_resolution(
    r: RelayView,
    id: u64,
    sequence: u64,
    ack: Seq<char>,
    later_ack: Seq<char>,
)
    requires
        relay_ok(r),
        lookup(r.in_flight, id) is Some,
        r.ack_ok.len() + 1 < u64::MAX,
        r.ack_failed.len() + 2 < u64::MAX,
    ensures
        ({
            let info = lookup(r.in_flight, id)->Some_0;
            let key = (info.source_channel, sequence);
            &&& confirm_outcome(r, id, sequence) matches Ok(watched)
            &&& lookup(watched.in_flight, id) is None
            &&& lookup(watched.awaiting, key) == Some(info)
            &&& ack_ok_outcome(watched, key.0, key.1, ack) matches Ok(done)
            &&& lookup(done.awaiting, key) is None
            &&& done.ack_ok.len() == r.ack_ok.len() + 1
            &&& done.ack_failed == r.ack_failed
            &&& ack_failed_outcome(done, key.0, key.1, later_ack) == Err::<
                (RelayView, (Seq<char>, Seq<CoinView>)),
                HookerError,
            >(HookerError::UnknownPacket)
            &&& ack_failed_outcome(watched, key.0, key.1, ack) matches Ok(failed)
            &&& failed.1 == (info.sender, seq![info.coin])
            &&& lookup(failed.0.awaiting, key) is None
            &&& failed.0.ack_ok == r.ack_ok
            &&& failed.0.ack_failed.len() == r.ack_failed.len() + 1
            &&& ack_failed_outcome(failed.0, key.0, key.1, later_ack) == Err::<
                (RelayView, (Seq<char>, Seq<CoinView>)),
                HookerError,
            >(HookerError::UnknownPacket)
        }),
{
    let info = lookup(r.in_flight, id)->Some_0;
    let key = (info.source_channel, sequence);
    crate::table::lemma_assign(r.awaiting, key, info);
    crate::table::lemma_erase(r.in_flight, id);
    let watched = confirm_outcome(r, id, sequence)->Ok_0;
    crate::table::lemma_erase(watched.awaiting, key);
}

/// Relay resolution from the request on: a request of `sender` with one coin is accepted
/// under a fresh id whatever else is pending; once its dispatch is confirmed with `sequence`
/// under that id, a failure or timeout report for its channel and that sequence refunds
/// exactly that coin to `sender`.
pub proof fn lemma_request_then_refund(
    before: RelayView,
    after: RelayView,
    origin: Seq<char>,
    now_nanos: u64,
    sender: Seq<char>,
    funds: Seq<Coin>,
    channel_id: Seq<char>,
    receiver: Seq<char>,
    to_fail: bool,
    to_address: Seq<char>,
    forward: Option<Forward>,
    d: (u64, MsgTransfer),
    sequence: u64,
    ack: Seq<char>,
)
    requires
        relay_ok(before),
        request_reported(
            before,
            after,
            origin,
            now_nanos,
            sender,
            funds,
            channel_id,
            receiver,
            to_fail,
            to_address,
            forward,
            Ok(d),
        ),
        before.next_id < u64::MAX,
        before.ack_ok.len() + 1 < u64::MAX,
        before.ack_failed.len() + 2 < u64::MAX,
    ensures
        confirm_outcome(after, d.0, sequence) matches Ok(watched) && ack_failed_outcome(
            watched,
            channel_id,
            sequence,
            ack,
        ) matches Ok(failed) && failed.1 == (sender, seq![funds[0]@]),
{
    let info = RequestInfoView { source_channel: channel_id, sender, coin: funds[0]@ };
    crate::table::lemma_assign(before.in_flight, before.next_id, info);
    assert(relay_ok(after)) by {
        crate::table::lemma_entries_after_assign(before.in_flight, before.next_id, info);
        assert forall|i: int| 0 <= i < after.in_flight.len() implies #[trigger] after.in_flight[i].0
            < after.next_id by {
            assert(after.in_flight[i] == (before.next_id, info) || after.in_flight[i] == before.in_flight[i]);
        }
    }
    lemma_relay_resolution(after, d.0, sequence, ack, ack);
}

impl Relay {
    pub open spec fn wf(&self) -> bool {
        relay_ok(self@)
    }

    pub fn instantiate(msg: InstantiateMsg) -> (r: Relay)
        ensures
            r.wf(),
            r@.in_flight.len() == 0,
            r@.next_id == 1,
            r@.awaiting.len() == 0,
            r@.ack_ok.len() == 0,
            r@.ack_failed.len() == 0,
            r@.response_ok.len() == 0,
    {
        let r = Relay {
            in_flight: Table::new(),
            next_id: 1,
            awaiting: Table::new(),
            ack_ok: Vec::new(),
            ack_failed: Vec::new(),
            response_ok: Vec::new(),
        };
        assert(r@.ack_ok =~= Seq::<LifecycleView>::empty());
        assert(r@.ack_failed =~= Seq::<LifecycleView>::empty());
        assert(r@.response_ok =~= Seq::<ReceivedRequestView>::empty());
        r
    }

    /// Requests a transfer of the one coin that came with the call: escrows it under a fresh
    /// correlation id and returns that id (the reply id of the dispatch) with the transfer to
    /// dispatch from contract `origin`, timing out seven days after `now_nanos`.
    pub fn run_request(
        &mut self,
        origin: &String,
        now_nanos: u64,
        sender: String,
        funds: Vec<Coin>,
        channel_id: String,
        receiver_ibc_hooker: String,
        to_fail: bool,
        to_address: String,
        forward: Option<Forward>,
    ) -> (r: Result<(u64, MsgTransfer), HookerError>)
        requires
            old(self).wf(),
            old(self)@.next_id < u64::MAX,
            now_nanos + TRANSFER_TIMEOUT_SECONDS * 1_000_000_000 <= u64::MAX,
        ensures
            final(self).wf(),
            request_reported(
                old(self)@,
                final(self)@,
                origin@,
                now_nanos,
                sender@,
                funds@,
                channel_id@,
                receiver_ibc_hooker@,
                to_fail,
                to_address@,
                forward,
                r,
            ),
    {
        if funds.len() != 1 {
            return Err(HookerError::NotOneCoin);
        }
        let mut funds = funds;
        let coin = funds.remove(0);
        let memo = build_memo(origin, &sender, &receiver_ibc_hooker, to_fail, &to_address, forward);
        let msg = MsgTransfer {
            source_port: "transfer".to_string(),
            source_channel: channel_id.clone(),
            token: coin.clone(),
            sender: origin.clone(),
            receiver: receiver_ibc_hooker,
            timeout_timestamp: nanos_after(now_nanos, TRANSFER_TIMEOUT_SECONDS),
            memo,
        };
        let id = self.next_id;
        let info = RequestInfo { source_channel: channel_id, sender, coin };
        proof {
            let s = self.in_flight@;
            crate::table::lemma_find_key(s, id);
            crate::table::lemma_assign(s, id, info@);
            crate::table::lemma_entries_after_assign(s, id, info@);
            assert forall|i: int| 0 <= i < s.len() implies s[i].0 != id by {}
        }
        self.in_flight.insert(id, info);
        self.next_id = id + 1;
        proof {
            let s = old(self)@.in_flight;
            let t = self@.in_flight;
            assert forall|i: int| 0 <= i < t.len() implies #[trigger] t[i].0 < self@.next_id by {
                assert(t[i] == (id, info@) || t[i] == s[i]);
            }
        }
        Ok((id, msg))
    }

    /// The receiving end: refuses when asked to, else logs the request and passes the
    /// funds on to `to_address`.
    pub fn run_received_request(
        &mut self,
        sender: String,
        funds: Vec<Coin>,
        to_fail: bool,
        from_address: String,
        to_address: String,
    ) -> (r: Result<BankSend, HookerError>)
        requires
            old(self).wf(),
        ensures
            final(self).wf(),
            received_reported(
                old(self)@,
                final(self)@,
                sender@,
                coins_view(funds@),
                to_fail,
                from_address@,
                to_address@,
                r,
            ),
    {
        if to_fail {
            return Err(HookerError::NeedToFail);
        }
        if self.response_ok.len() as u64 >= u64::MAX - 1 {
            return Err(HookerError::LogFull);
        }
        let record = ReceivedRequest { sender, funds: copy_coins(&funds), to_fail, from_address };
        let ghost before = self.response_ok@;
        self.response_ok.push(record);
        assert(received_view(self.response_ok@) =~= received_view(before).push(record@));
        Ok(BankSend { to_address, amount: funds })
    }

    /// The dispatch of the transfer pending under `id` was confirmed with `sequence`: the
    /// transfer is now tracked under its channel and that sequence.
    pub fn confirm_dispatch(&mut self, id: u64, sequence: u64) -> (r: Result<(), HookerError>)
        requires
            old(self).wf(),
        ensures
            final(self).wf(),
            match r {
                Ok(()) => confirm_outcome(old(self)@, id, sequence) == Ok::<RelayView, HookerError>(
                    final(self)@,
                ),
                Err(e) => confirm_outcome(old(self)@, id, sequence) == Err::<RelayView, HookerError>(e)
                    && final(self)@ == old(self)@,
            },
    {
        let ghost s = self.in_flight@;
        proof {
            crate::table::lemma_find_key(s, id);
            crate::table::lemma_erase(s, id);
            crate::table::lemma_entries_after_erase(s, id);
        }
        let info = match self.in_flight.remove(&id) {
            Some(i) => i,
            None => {
                return Err(HookerError::InvalidReplyId);
            },
        };
        proof {
            let t = self@.in_flight;
            assert forall|i: int| 0 <= i < t.len() implies #[trigger] t[i].0 < self@.next_id by {
                assert(t[i] == s[i] || t[i] == s[i + 1]);
            }
            crate::table::lemma_assign(self.awaiting@, (info.source_channel@, sequence), info@);
        }
        self.awaiting.insert((info.source_channel.clone(), sequence), info);
        Ok(())
    }

    /// Handles the reply to a dispatch, `id` being the correlation id its request was given:
    /// the confirmation is decoded and the transfer tracked under its sequence.
    pub fn reply(&mut self, id: u64, data: Option<Vec<u8>>) -> (r: Result<u64, HookerError>)
        requires
            old(self).wf(),
        ensures
            final(self).wf(),
            match r {
                Ok(seq) => reply_outcome(old(self)@, id, opt_bytes(data)) == Ok::<(RelayView, u64), HookerError>(
                    (final(self)@, seq),
                ),
                Err(e) => reply_outcome(old(self)@, id, opt_bytes(data)) == Err::<(RelayView, u64), HookerError>(e)
                    && final(self)@ == old(self)@,
            },
    {
        proof {
            crate::table::lemma_find_key(self.in_flight@, id);
        }
        if self.in_flight.find(&id).is_none() {
            return Err(HookerError::InvalidReplyId);
        }
        let bytes = match &data {
            Some(b) => b,
            None => {
                return Err(HookerError::FailedReply);
            },
        };
        let sequence = match decode_transfer_response(bytes.as_slice()) {
            Some(s) => s,
            None => {
                return Err(HookerError::UndecodableResponse);
            },
        };
        match self.confirm_dispatch(id, sequence) {
            Ok(()) => Ok(sequence),
            Err(e) => Err(e),
        }
    }

    /// Dispatches a call made from `sender` with `funds` to this contract, `origin`, at
    /// `now_nanos`.
    pub fn execute(
        &mut self,
        origin: &String,
        now_nanos: u64,
        sender: String,
        funds: Vec<Coin>,
        msg: ExecuteMsg,
    ) -> (r: Result<HookerResponse, HookerError>)
        requires
            old(self).wf(),
            old(self)@.next_id < u64::MAX,
            now_nanos + TRANSFER_TIMEOUT_SECONDS * 1_000_000_000 <= u64::MAX,
        ensures
            final(self).wf(),
            match msg {
                ExecuteMsg::Request { channel_id, to_fail, receiver_ibc_hooker, to_address, forward } =>
                    request_reported(
                    old(self)@,
                    final(self)@,
                    origin@,
                    now_nanos,
                    sender@,
                    funds@,
                    channel_id@,
                    receiver_ibc_hooker@,
                    to_fail,
                    to_address@,
                    forward,
                    match r {
                        Ok(HookerResponse::Transfer(id, t)) => Ok((id, t)),
                        Ok(HookerResponse::Send(_)) => Err(HookerError::LogFull),
                        Err(e) => Err(e),
                    },
                ) && !(r matches Ok(HookerResponse::Send(_))),
                ExecuteMsg::ReceivedRequest { from_address, to_fail, to_address } => received_reported(
                    old(self)@,
                    final(self)@,
                    sender@,
                    coins_view(funds@),
                    to_fail,
                    from_address@,
                    to_address@,
                    match r {
                        Ok(HookerResponse::Send(b)) => Ok(b),
                        Ok(HookerResponse::Transfer(..)) => Err(HookerError::LogFull),
                        Err(e) => Err(e),
                    },
                ) && !(r matches Ok(HookerResponse::Transfer(..))),
            },
    {
        match msg {
            ExecuteMsg::Request { channel_id, to_fail, receiver_ibc_hooker, to_address, forward } => {
                match self.run_request(
                    origin,
                    now_nanos,
                    sender,
                    funds,
                    channel_id,
                    receiver_ibc_hooker,
                    to_fail,
                    to_address,
                    forward,
                ) {
                    Ok((id, t)) => Ok(HookerResponse::Transfer(id, t)),
                    Err(e) => Err(e),
                }
            },
            ExecuteMsg::ReceivedRequest { from_address, to_fail, to_address } => {
                match self.run_received_request(sender, funds, to_fail, from_address, to_address) {
                    Ok(b) => Ok(HookerResponse::Send(b)),
                    Err(e) => Err(e),
                }
            },
        }
    }

    /// The newest page of each log.
    pub fn qy_state(&self) -> (r: QueryResponse)
        requires
            self.wf(),
        ensures
            ({
                let QueryResponse::State { response_ok, ack_ok, ack_failed } = r;
                &&& entries_view(response_ok@) == page(self@.response_ok, None, None)
                &&& entries_view(ack_ok@) == page(self@.ack_ok, None, None)
                &&& entries_view(ack_failed@) == page(self@.ack_failed, None, None)
            }),
    {
        assert(log_view(self.response_ok@) =~= self@.response_ok);
        assert(log_view(self.ack_ok@) =~= self@.ack_ok);
        assert(log_view(self.ack_failed@) =~= self@.ack_failed);
        let ack_ok = get_last_items(&self.ack_ok, None, None);
        let ack_failed = get_last_items(&self.ack_failed, None, None);
        let response_ok = get_last_items(&self.response_ok, None, None);
        QueryResponse::State { response_ok, ack_ok, ack_failed }
    }

    pub fn query(&self, msg: QueryMsg) -> (r: QueryResponse)
        requires
            self.wf(),
        ensures
            ({
                let QueryResponse::State { response_ok, ack_ok, ack_failed } = r;
                &&& entries_view(response_ok@) == page(self@.response_ok, None, None)
                &&& entries_view(ack_ok@) == page(self@.ack_ok, None, None)
                &&& entries_view(ack_failed@) == page(self@.ack_failed, None, None)
            }),
    {
        match msg {
            QueryMsg::State {} => self.qy_state(),
        }
    }

    /// Success acknowledged for `(channel, sequence)`: logged, and the escrow is dropped.
    pub fn on_ack_ok(&mut self, channel: String, sequence: u64, ack: String) -> (r: Result<
        (),
        HookerError,
    >)
        requires
            old(self).wf(),
        ensures
            final(self).wf(),
            match r {
                Ok(()) => ack_ok_outcome(old(self)@, channel@, sequence, ack@) == Ok::<RelayView, HookerError>(
                    final(self)@,
                ),
                Err(e) => ack_ok_outcome(old(self)@, channel@, sequence, ack@) == Err::<RelayView, HookerError>(e)
                    && final(self)@ == old(self)@,
            },
    {
        if self.ack_ok.len() as u64 >= u64::MAX - 1 {
            return Err(HookerError::LogFull);
        }
        proof {
            crate::table::lemma_erase(self.awaiting@, (channel@, sequence));
        }
        let record = IBCLifecycleComplete::IBCAck { channel: channel.clone(), sequence, ack, success: true };
        let ghost before = self.ack_ok@;
        self.ack_ok.push(record);
        assert(lifecycles_view(self.ack_ok@) =~= lifecycles_view(before).push(record@));
        self.awaiting.remove(&(channel, sequence));
        Ok(())
    }

    /// Failure or timeout for `(channel, sequence)`: logged, the escrow dropped, and the
    /// escrowed coin returned to its sender.
    pub fn on_ack_failed(&mut self, channel: String, sequence: u64, ack: String) -> (r: Result<
        BankSend,
        HookerError,
    >)
        requires
            old(self).wf(),
        ensures
            final(self).wf(),
            match r {
                Ok(b) => ack_failed_outcome(old(self)@, channel@, sequence, ack@) == Ok::<
                    (RelayView, (Seq<char>, Seq<CoinView>)),
                    HookerError,
                >((final(self)@, bank_send_view(b))),
                Err(e) => ack_failed_outcome(old(self)@, channel@, sequence, ack@) == Err::<
                    (RelayView, (Seq<char>, Seq<CoinView>)),
                    HookerError,
                >(e) && final(self)@ == old(self)@,
            },
    {
        let key = (channel, sequence);
        proof {
            lemma_find_key(self.awaiting@, key@);
            crate::table::lemma_erase(self.awaiting@, key@);
        }
        if self.awaiting.find(&key).is_none() {
            return Err(HookerError::UnknownPacket);
        }
        if self.ack_failed.len() as u64 >= u64::MAX - 1 {
            return Err(HookerError::LogFull);
        }
        let original = match self.awaiting.remove(&key) {
            Some(info) => info,
            None => {
                return Err(HookerError::UnknownPacket);
            },
        };
        let record = IBCLifecycleComplete::IBCAck { channel: key.0, sequence, ack, success: false };
        let ghost before = self.ack_failed@;
        self.ack_failed.push(record);
        assert(lifecycles_view(self.ack_failed@) =~= lifecycles_view(before).push(record@));
        let mut amount: Vec<Coin> = Vec::new();
        amount.push(original.coin);
        let refund = BankSend { to_address: original.sender, amount };
        assert(coins_view(refund.amount@) =~= seq![original.coin@]);
        Ok(refund)
    }

    /// Routes a completion report: success to `on_ack_ok`, failure and timeout to
    /// `on_ack_failed` (a timeout is logged with the acknowledgement "timeout").
    pub fn sudo(&mut self, msg: SudoMsg) -> (r: Result<Option<BankSend>, HookerError>)
        requires
            old(self).wf(),
        ensures
            final(self).wf(),
            match msg {
                SudoMsg::IBCLifecycleComplete(IBCLifecycleComplete::IBCAck { channel, sequence, ack, success }) =>
                    if success {
                    match r {
                        Ok(b) => b is None && ack_ok_outcome(old(self)@, channel@, sequence, ack@) == Ok::<
                            RelayView,
                            HookerError,
                        >(final(self)@),
                        Err(e) => ack_ok_outcome(old(self)@, channel@, sequence, ack@) == Err::<
                            RelayView,
                            HookerError,
                        >(e) && final(self)@ == old(self)@,
                    }
                } else {
                    failed_reported(old(self)@, final(self)@, channel@, sequence, ack@, r)
                },
                SudoMsg::IBCLifecycleComplete(IBCLifecycleComplete::IBCTimeout { channel, sequence }) =>
                    failed_reported(old(self)@, final(self)@, channel@, sequence, "timeout"@, r),
            },
    {
        match msg {
            SudoMsg::IBCLifecycleComplete(IBCLifecycleComplete::IBCAck { channel, sequence, ack, success }) => {
                if success {
                    match self.on_ack_ok(channel, sequence, ack) {
                        Ok(()) => Ok(None),
                        Err(e) => Err(e),
                    }
                } else {
                    match self.on_ack_failed(channel, sequence, ack) {
                        Ok(b) => Ok(Some(b)),
                        Err(e) => Err(e),
                    }
                }
            },
            SudoMsg::IBCLifecycleComplete(IBCLifecycleComplete::IBCTimeout { channel, sequence }) => {
                match self.on_ack_failed(channel, sequence, "timeout".to_string()) {
                    Ok(b) => Ok(Some(b)),
                    Err(e) => Err(e),
                }
            },
        }
    }
}

/// `r` is what `on_ack_failed` gives for the report, and the relay moved accordingly.
pub open spec fn failed_reported(
    before: RelayView,
    after: RelayView,
    channel: Seq<char>,
    sequence: u64,
    ack: Seq<char>,
    r: Result<Option<BankSend>, HookerError>,
) -> bool {
    match r {
        Ok(b) => b matches Some(refund) && ack_failed_outcome(before, channel, sequence, ack) == Ok::<
            (RelayView, (Seq<char>, Seq<CoinView>)),
            HookerError,
        >((after, bank_send_view(refund))),
        Err(e) => ack_failed_outcome(before, channel, sequence, ack) == Err::<
            (RelayView, (Seq<char>, Seq<CoinView>)),
            HookerError,
        >(e) && after == before,
    }
}

} // verus!
