use ibc_market::coin::Coin;
use ibc_market::paging::get_last_items;
use ibc_market::proto::decode_transfer_response;
use ibc_market::relay::{
    build_memo, BankSend, ExecuteMsg, Forward, HookerError, HookerResponse,
    IBCLifecycleComplete, InstantiateMsg, MemoField, MsgReplyID, QueryMsg, QueryResponse,
    Relay, SudoMsg,
};

const NOW: u64 = 1_571_797_419_879_305_533;
const WEEK_NANOS: u64 = 604_800 * 1_000_000_000;

fn s(x: &str) -> String {
    x.to_string()
}

fn coin(amount: u128, denom: &str) -> Coin {
    Coin { denom: s(denom), amount }
}

fn relay() -> Relay {
    Relay::instantiate(InstantiateMsg {})
}

fn request(r: &mut Relay, sender: &str, c: Coin, channel: &str) -> u64 {
    r.run_request(
        &s("hooker_contract"),
        NOW,
        s(sender),
        vec![c],
        s(channel),
        s("receiver_ibc_hooker"),
        false,
        s("receiver_addr"),
        None,
    )
    .unwrap()
    .0
}

fn received_request_call(to_fail: bool) -> ExecuteMsg {
    ExecuteMsg::ReceivedRequest { from_address: s("sender"), to_fail, to_address: s("receiver_addr") }
}

#[test]
fn hooker_main() {
    let mut r = relay();
    let msg = ExecuteMsg::Request {
        to_fail: false,
        receiver_ibc_hooker: s("receiver_ibc_hooker"),
        channel_id: s("src_channel"),
        to_address: s("receiver_addr"),
        forward: Some(Forward { receiver: s("middle_contract_addr"), channel: s("middle_channel") }),
    };
    let res = r
        .execute(&s("hooker_contract"), NOW, s("sender"), vec![coin(100, "ucoin")], msg)
        .unwrap();
    assert!(matches!(res, HookerResponse::Transfer(1, _)));

    let msg = ExecuteMsg::ReceivedRequest {
        to_fail: false,
        from_address: s("sender_addr"),
        to_address: s("receiver_addr"),
    };
    r.execute(&s("hooker_contract"), NOW, s("sender"), vec![coin(100, "ucoin")], msg).unwrap();
    let msg = ExecuteMsg::ReceivedRequest {
        to_fail: false,
        from_address: s("sender_addr"),
        to_address: s("receiver_addr"),
    };
    let res = r
        .execute(&s("hooker_contract"), NOW, s("sender"), vec![coin(50, "ucoin")], msg)
        .unwrap();
    assert_eq!(
        res,
        HookerResponse::Send(BankSend { to_address: s("receiver_addr"), amount: vec![coin(50, "ucoin")] })
    );

    let QueryResponse::State { response_ok, ack_ok, ack_failed } = r.query(QueryMsg::State {});
    assert_eq!(response_ok.iter().map(|e| e.0).collect::<Vec<u64>>(), vec![2, 1]);
    assert_eq!(response_ok[0].1.funds, vec![coin(50, "ucoin")]);
    assert!(ack_ok.is_empty() && ack_failed.is_empty());

    let msg = SudoMsg::IBCLifecycleComplete(IBCLifecycleComplete::IBCAck {
        channel: s("channel_1"),
        sequence: 1,
        ack: s("ok"),
        success: true,
    });
    assert_eq!(r.sudo(msg), Ok(None));
    let QueryResponse::State { ack_ok, .. } = r.query(QueryMsg::State {});
    assert_eq!(
        ack_ok,
        vec![(
            1,
            IBCLifecycleComplete::IBCAck {
                channel: s("channel_1"),
                sequence: 1,
                ack: s("ok"),
                success: true
            }
        )]
    );
}

#[test]
fn forward_hop_nests_envelope_with_origin_callback() {
    let mut r = relay();
    let (id, t) = r
        .run_request(
            &s("hooker_contract"),
            NOW,
            s("alice"),
            vec![coin(100, "ucoin")],
            s("channel-0"),
            s("receiver_ibc_hooker"),
            true,
            s("bob"),
            Some(Forward { receiver: s("middle_contract_addr"), channel: s("middle_channel") }),
        )
        .unwrap();
    assert_eq!(id, 1);
    assert_eq!(t.source_port, "transfer");
    assert_eq!(t.source_channel, "channel-0");
    assert_eq!(t.sender, "hooker_contract");
    assert_eq!(t.receiver, "receiver_ibc_hooker");
    assert_eq!(t.token, coin(100, "ucoin"));
    assert_eq!(t.timeout_timestamp, NOW + WEEK_NANOS);
    assert_eq!(t.memo.ibc_callback, Some(s("hooker_contract")));
    assert!(t.memo.wasm.is_none());
    let hop = t.memo.forward.unwrap();
    assert_eq!((hop.receiver.as_str(), hop.port.as_str(), hop.channel.as_str()), ("middle_contract_addr", "transfer", "middle_channel"));
    let inner = *hop.next.unwrap();
    assert_eq!(inner.ibc_callback, None);
    assert!(inner.forward.is_none());
    let call = inner.wasm.unwrap();
    assert_eq!(call.contract, "middle_contract_addr");
    assert_eq!(
        call.msg,
        ExecuteMsg::ReceivedRequest { from_address: s("alice"), to_fail: true, to_address: s("bob") }
    );
}

#[test]
fn direct_envelope_calls_receiver() {
    let memo: MemoField<ExecuteMsg> =
        build_memo(&s("origin"), &s("alice"), &s("hooker_b"), false, &s("bob"), None);
    assert_eq!(memo.ibc_callback, Some(s("origin")));
    assert!(memo.forward.is_none());
    let call = memo.wasm.unwrap();
    assert_eq!(call.contract, "hooker_b");
    assert_eq!(
        call.msg,
        ExecuteMsg::ReceivedRequest { from_address: s("alice"), to_fail: false, to_address: s("bob") }
    );
}

#[test]
fn received_request_with_fail_flag_is_refused() {
    let mut r = relay();
    let res = r.execute(&s("c"), NOW, s("sender"), vec![coin(5, "ucoin")], received_request_call(true));
    assert_eq!(res, Err(HookerError::NeedToFail));
    assert!(r.response_ok.is_empty());
    let res = r.execute(&s("c"), NOW, s("sender"), vec![coin(5, "ucoin")], received_request_call(false));
    assert!(res.is_ok());
    assert_eq!(r.response_ok.len(), 1);
}

#[test]
fn timeout_refunds_escrow_once() {
    let mut r = relay();
    let id = request(&mut r, "alice", coin(100, "ucoin"), "channel-7");
    assert_eq!(id, MsgReplyID::SendPacket.repr());
    assert_eq!(r.reply(id, Some(vec![0x08, 0x07])), Ok(7));
    assert!(r.in_flight.entries.is_empty());
    let timeout = SudoMsg::IBCLifecycleComplete(IBCLifecycleComplete::IBCTimeout {
        channel: s("channel-7"),
        sequence: 7,
    });
    let refund = r.sudo(timeout).unwrap().unwrap();
    assert_eq!(refund, BankSend { to_address: s("alice"), amount: vec![coin(100, "ucoin")] });
    assert!(r.awaiting.entries.is_empty());
    assert_eq!(
        r.ack_failed,
        vec![IBCLifecycleComplete::IBCAck {
            channel: s("channel-7"),
            sequence: 7,
            ack: s("timeout"),
            success: false
        }]
    );
    let again = SudoMsg::IBCLifecycleComplete(IBCLifecycleComplete::IBCTimeout {
        channel: s("channel-7"),
        sequence: 7,
    });
    assert_eq!(r.sudo(again), Err(HookerError::UnknownPacket));
    assert_eq!(r.ack_failed.len(), 1);
}

#[test]
fn success_ack_drops_escrow_without_refund() {
    let mut r = relay();
    let id = request(&mut r, "alice", coin(3, "ucoin"), "channel-2");
    r.confirm_dispatch(id, 11).unwrap();
    let ok = SudoMsg::IBCLifecycleComplete(IBCLifecycleComplete::IBCAck {
        channel: s("channel-2"),
        sequence: 11,
        ack: s("AQ=="),
        success: true,
    });
    assert_eq!(r.sudo(ok), Ok(None));
    assert!(r.awaiting.entries.is_empty());
    assert_eq!(r.on_ack_failed(s("channel-2"), 11, s("late")), Err(HookerError::UnknownPacket));
    assert!(r.ack_failed.is_empty());
}

#[test]
fn failed_ack_refunds_original_sender() {
    let mut r = relay();
    let first = request(&mut r, "carol", coin(42, "uosmo"), "channel-3");
    r.confirm_dispatch(first, 1).unwrap();
    let second = request(&mut r, "dave", coin(8, "uatom"), "channel-3");
    r.confirm_dispatch(second, 2).unwrap();
    let refund = r.on_ack_failed(s("channel-3"), 1, s("error")).unwrap();
    assert_eq!(refund, BankSend { to_address: s("carol"), amount: vec![coin(42, "uosmo")] });
    assert_eq!(r.awaiting.entries.len(), 1);
    assert_eq!(r.awaiting.entries[0].0, (s("channel-3"), 2));
}

#[test]
fn request_needs_one_coin() {
    let mut r = relay();
    let call = |r: &mut Relay, funds: Vec<Coin>| {
        r.run_request(&s("c"), NOW, s("a"), funds, s("ch"), s("recv"), false, s("to"), None)
    };
    assert_eq!(call(&mut r, vec![]).unwrap_err(), HookerError::NotOneCoin);
    assert_eq!(call(&mut r, vec![coin(1, "a"), coin(2, "b")]).unwrap_err(), HookerError::NotOneCoin);
    assert!(r.in_flight.entries.is_empty());
    assert_eq!(r.next_id, 1);
}

#[test]
fn reply_refusals() {
    let mut r = relay();
    assert_eq!(r.reply(1, Some(vec![0x08, 0x01])), Err(HookerError::InvalidReplyId));
    let id = request(&mut r, "alice", coin(1, "ucoin"), "channel-0");
    assert_eq!(r.reply(id + 1, Some(vec![0x08, 0x01])), Err(HookerError::InvalidReplyId));
    assert_eq!(r.reply(id, None), Err(HookerError::FailedReply));
    assert_eq!(r.reply(id, Some(vec![0x08])), Err(HookerError::UndecodableResponse));
    assert_eq!(r.in_flight.entries.len(), 1);
    assert_eq!(r.confirm_dispatch(id + 1, 3), Err(HookerError::InvalidReplyId));
    assert_eq!(r.reply(id, Some(vec![0x08, 0x01])), Ok(1));
    assert_eq!(r.reply(id, Some(vec![0x08, 0x01])), Err(HookerError::InvalidReplyId));
    assert_eq!(MsgReplyID::from_repr(1), Some(MsgReplyID::SendPacket));
    assert_eq!(MsgReplyID::from_repr(0), None);
}

#[test]
fn decodes_transfer_response() {
    assert_eq!(decode_transfer_response(&[0x08, 0x96, 0x01]), Some(150));
    assert_eq!(decode_transfer_response(&[]), Some(0));
    assert_eq!(decode_transfer_response(&[0x12, 0x02, 0xff, 0xff, 0x08, 0x03]), Some(3));
    assert_eq!(decode_transfer_response(&[0x08, 0x01, 0x08, 0x09]), Some(9));
    assert_eq!(decode_transfer_response(&[0x09, 0x01]), None);
    assert_eq!(decode_transfer_response(&[0x08]), None);
    assert_eq!(decode_transfer_response(&[0x00]), None);
}

#[test]
fn paging_walks_logs_newest_first() {
    let log: Vec<IBCLifecycleComplete> = (0..25u64)
        .map(|i| IBCLifecycleComplete::IBCTimeout { channel: s("c"), sequence: i })
        .collect();
    let keys = |items: &Vec<(u64, IBCLifecycleComplete)>| items.iter().map(|e| e.0).collect::<Vec<u64>>();
    let first = get_last_items(&log, None, None);
    assert_eq!(keys(&first), (16..=25).rev().collect::<Vec<u64>>());
    assert_eq!(first[0].1, IBCLifecycleComplete::IBCTimeout { channel: s("c"), sequence: 24 });
    let mut seen: Vec<u64> = keys(&first);
    let mut cursor = *seen.last().unwrap();
    loop {
        let next = get_last_items(&log, Some(7), Some(cursor));
        if next.is_empty() {
            break;
        }
        cursor = next.last().unwrap().0;
        seen.extend(keys(&next));
    }
    assert_eq!(seen, (1..=25).rev().collect::<Vec<u64>>());
    assert_eq!(get_last_items(&log, Some(100), None).len(), 25);
    assert_eq!(get_last_items(&log, Some(100), Some(26)).len(), 25);
    let big: Vec<IBCLifecycleComplete> = (0..40u64)
        .map(|i| IBCLifecycleComplete::IBCTimeout { channel: s("c"), sequence: i })
        .collect();
    assert_eq!(get_last_items(&big, Some(100), None).len(), 30);
    assert_eq!(keys(&get_last_items(&log, Some(3), Some(3))), vec![2, 1]);
    assert!(get_last_items(&log, Some(0), None).is_empty());
    assert!(get_last_items(&log, None, Some(1)).is_empty());
}

#[test]
fn requests_pending_together_are_kept_apart() {
    let mut r = relay();
    let alice = request(&mut r, "alice", coin(10, "ucoin"), "channel-1");
    let bob = request(&mut r, "bob", coin(20, "uatom"), "channel-1");
    assert_ne!(alice, bob);
    assert_eq!(r.in_flight.entries.len(), 2);
    assert_eq!(r.reply(bob, Some(vec![0x08, 0x05])), Ok(5));
    assert_eq!(r.reply(alice, Some(vec![0x08, 0x04])), Ok(4));
    assert!(r.in_flight.entries.is_empty());
    assert_eq!(
        r.on_ack_failed(s("channel-1"), 4, s("err")).unwrap(),
        BankSend { to_address: s("alice"), amount: vec![coin(10, "ucoin")] }
    );
    assert_eq!(
        r.on_ack_failed(s("channel-1"), 5, s("err")).unwrap(),
        BankSend { to_address: s("bob"), amount: vec![coin(20, "uatom")] }
    );
}
