use ibc_market::coin::Coin;
use ibc_market::error::ContractError;
use ibc_market::ledger::{Ledger, Position};
use ibc_market::market::{
    onecoin, split_fee, BridgeMsgInfo, Cw20MsgType, GateCollectMsgsAllowed, Market, MarketMsg, NativeInfo, Route,
    SendNativeInfo,
};
use ibc_market::table::Table;

fn s(x: &str) -> String {
    x.to_string()
}

fn bridge(to_remote_addr: String, chain: String, native_info: Option<NativeInfo>) -> GateCollectMsgsAllowed {
    GateCollectMsgsAllowed::BridgePosition { to_remote_addr, chain, native_info }
}

fn coin(amount: u128, denom: &str) -> Coin {
    Coin { denom: s(denom), amount }
}

fn position(loan: u128, colls: &[(&str, u128)]) -> Position {
    Position {
        loan,
        collaterals: Table { entries: colls.iter().map(|(d, a)| (s(d), *a)).collect() },
    }
}

/// A market owned by "onwer000" whose gate is "gate_contract" and whose remote market on
/// "injective" is "remote_market_contract".
fn ready_market() -> Market {
    let mut m = Market::instantiate(s("onwer000"));
    m.register_gate(&s("onwer000"), s("gate_contract")).unwrap();
    m.gate_set_permission(&s("onwer000"), s("remote_market_contract"), s("injective")).unwrap();
    m
}

#[test]
fn test_main() {
    let mut m = Market::instantiate(s("onwer000"));
    let user = s("user000");

    m.deposit(&user, vec![coin(100, "uAtom")]).unwrap();
    let p = m.qy_position(&user).unwrap();
    assert_eq!(p, position(0, &[("uAtom", 100)]));

    m.register_gate(&s("onwer000"), s("gate_contract")).unwrap();
    let msg = m
        .gate_set_permission(&s("onwer000"), s("remote_market_contract"), s("injective"))
        .unwrap();
    assert_eq!(
        msg,
        MarketMsg::SetPermission {
            gate: s("gate_contract"),
            chain: s("injective"),
            addresses: vec![s("remote_market_contract")],
        }
    );

    let out = m
        .gate_collect_requests(&s("gate_contract"), vec![coin(50, "uluna")], &user, bridge(s("remote000"), s("injective"), Some(NativeInfo {
                path_middle_forward: vec![],
                dest_denom: s("ibc/uatom"),
                channel_id: s("channel-1"),
                timeout: None,
            })), vec![Route::Native])
        .unwrap();
    assert_eq!(
        out,
        vec![MarketMsg::SendRequests {
            gate: s("gate_contract"),
            chain: s("injective"),
            to_contract: s("remote_market_contract"),
            bridge: BridgeMsgInfo {
                sender: s("user000"),
                receiver: s("remote000"),
                src_position: position(0, &[("uAtom", 100)]),
                dest_position: position(0, &[("ibc/uatom", 100)]),
            },
            send_native: Some(SendNativeInfo {
                coin: coin(100, "uAtom"),
                path_middle_forward: vec![],
                dest_denom: s("ibc/uatom"),
                channel_id: s("channel-1"),
                timeout: None,
            }),
            funds: vec![coin(50, "uluna"), coin(100, "uAtom")],
        }]
    );
    assert_eq!(m.qy_position(&user), Err(ContractError::UserNotFound));

    let bridge = BridgeMsgInfo {
        sender: s("remote_user"),
        receiver: s("local_user"),
        dest_position: position(500, &[("token_1", 500)]),
        src_position: position(500, &[("token_1", 500)]),
    };
    m.gate_receive_msg(&s("gate_contract"), &bridge).unwrap();
    assert_eq!(m.qy_position(&s("local_user")).unwrap(), position(500, &[("token_1", 500)]));
}

#[test]
fn deposit_then_query_position() {
    let mut m = Market::instantiate(s("owner"));
    m.deposit(&s("U"), vec![coin(100, "uAtom")]).unwrap();
    let p = m.qy_position(&s("U")).unwrap();
    assert_eq!(p.loan, 0);
    assert_eq!(p.collaterals.entries, vec![(s("uAtom"), 100)]);
}

#[test]
fn fee_split_one_native_one_token() {
    let mut m = ready_market();
    let user = s("user000");
    m.deposit(&user, vec![coin(100, "uAtom")]).unwrap();
    m.receive_cw20(&s("token_1"), &user, 40, Cw20MsgType::Deposit {}).unwrap();
    let out = m
        .gate_collect_requests(&s("gate_contract"), vec![coin(50, "uluna")], &user, bridge(s("remote000"), s("injective"), Some(NativeInfo {
                path_middle_forward: vec![],
                dest_denom: s("ibc/uatom"),
                channel_id: s("channel-1"),
                timeout: Some(9),
            })), vec![Route::Native, Route::Token { remote: s("remote_token_1") }])
        .unwrap();
    assert_eq!(out.len(), 2);
    assert_eq!(
        out[0],
        MarketMsg::GateBridge {
            token: s("token_1"),
            chain: s("injective"),
            remote_receiver: s("remote_market_contract"),
            amount: 40,
            funds: vec![coin(25, "uluna")],
        }
    );
    match &out[1] {
        MarketMsg::SendRequests { funds, bridge, send_native, .. } => {
            assert_eq!(funds, &vec![coin(25, "uluna"), coin(100, "uAtom")]);
            assert_eq!(
                bridge.dest_position,
                position(0, &[("ibc/uatom", 100), ("remote_token_1", 40)])
            );
            assert_eq!(send_native.as_ref().unwrap().timeout, Some(9));
        }
        other => panic!("unexpected message {:?}", other),
    }
}

#[test]
fn fee_split_remainder_goes_to_saga_message() {
    assert_eq!(split_fee(50, 1), (25, 25));
    assert_eq!(split_fee(10, 2), (3, 4));
    assert_eq!(split_fee(7, 0), (7, 7));
    assert_eq!(split_fee(0, 3), (0, 0));
    let (per, rest) = split_fee(u128::MAX, 4);
    assert_eq!(per * 4 + rest, u128::MAX);
}

#[test]
fn fee_merges_with_native_of_same_denom() {
    let mut m = ready_market();
    m.deposit(&s("u"), vec![coin(100, "uluna")]).unwrap();
    let out = m
        .gate_collect_requests(&s("gate_contract"), vec![coin(50, "uluna")], &s("u"), bridge(s("r"), s("injective"), Some(NativeInfo {
                path_middle_forward: vec![],
                dest_denom: s("ibc/uluna"),
                channel_id: s("channel-1"),
                timeout: None,
            })), vec![Route::Native])
        .unwrap();
    match &out[0] {
        MarketMsg::SendRequests { funds, .. } => assert_eq!(funds, &vec![coin(150, "uluna")]),
        other => panic!("unexpected message {:?}", other),
    }
}

#[test]
fn deposits_and_withdrawals_conserve_collateral() {
    let mut l = Ledger::new();
    let u = s("u");
    l.user_deposit(&u, 70, &s("a")).unwrap();
    l.user_deposit(&u, 30, &s("a")).unwrap();
    l.user_deposit(&u, 5, &s("b")).unwrap();
    assert_eq!(l.user_withdraw(&u, Some(40), &s("a")), Ok(40));
    assert_eq!(l.user_withdraw(&u, Some(61), &s("a")), Err(ContractError::InsufficientCollateral));
    assert_eq!(l.position(&u).unwrap().collaterals.get(&s("a")), Some(&60));
    assert_eq!(l.user_withdraw(&u, None, &s("a")), Ok(60));
    assert_eq!(l.position(&u).unwrap().collaterals.get(&s("a")), None);
    assert_eq!(l.position(&u).unwrap().collaterals.get(&s("b")), Some(&5));
    assert_eq!(l.user_withdraw(&u, Some(1), &s("a")), Err(ContractError::CollateralNotFound));
    assert_eq!(l.user_withdraw(&s("v"), None, &s("a")), Err(ContractError::UserNotFound));
}

#[test]
fn withdraw_whole_balance_keeps_zero_entry() {
    let mut m = Market::instantiate(s("o"));
    m.deposit(&s("u"), vec![coin(10, "tok")]).unwrap();
    let msg = m.withdraw(&s("u"), s("tok"), Some(10)).unwrap();
    assert_eq!(
        msg,
        MarketMsg::Cw20Transfer { contract: s("tok"), recipient: s("u"), amount: 10 }
    );
    assert_eq!(m.qy_position(&s("u")).unwrap(), position(0, &[("tok", 0)]));
}

#[test]
fn deposit_overflow_is_refused() {
    let mut m = Market::instantiate(s("o"));
    m.deposit(&s("u"), vec![coin(u128::MAX, "x")]).unwrap();
    assert_eq!(m.deposit(&s("u"), vec![coin(1, "x")]), Err(ContractError::Overflow));
    assert_eq!(m.qy_position(&s("u")).unwrap(), position(0, &[("x", u128::MAX)]));
}

#[test]
fn deposit_needs_exactly_one_coin() {
    let mut m = Market::instantiate(s("o"));
    assert_eq!(m.deposit(&s("u"), vec![]), Err(ContractError::NoFunds));
    assert_eq!(
        m.deposit(&s("u"), vec![coin(1, "a"), coin(1, "b")]),
        Err(ContractError::TooManyCoins)
    );
    assert_eq!(onecoin(vec![]), Ok(None));
    assert_eq!(onecoin(vec![coin(3, "a")]), Ok(Some(coin(3, "a"))));
}

#[test]
fn loans_increase_and_repay() {
    let mut m = Market::instantiate(s("o"));
    assert_eq!(m.repay_loan(&s("u"), None), Err(ContractError::UserNotFound));
    m.increase_loan(&s("u"), 100).unwrap();
    m.increase_loan(&s("u"), 20).unwrap();
    assert_eq!(m.repay_loan(&s("u"), Some(121)), Err(ContractError::RepayExceedsLoan));
    m.repay_loan(&s("u"), Some(20)).unwrap();
    assert_eq!(m.qy_position(&s("u")).unwrap().loan, 100);
    m.repay_loan(&s("u"), None).unwrap();
    assert_eq!(m.qy_position(&s("u")).unwrap().loan, 0);
    assert_eq!(m.increase_loan(&s("u"), u128::MAX), Ok(()));
    assert_eq!(m.increase_loan(&s("u"), 1), Err(ContractError::Overflow));
}

#[test]
fn only_owner_and_gate_may_administer() {
    let mut m = Market::instantiate(s("owner"));
    assert_eq!(m.register_gate(&s("x"), s("g")), Err(ContractError::Unauthorized));
    assert_eq!(
        m.gate_set_permission(&s("owner"), s("r"), s("c")),
        Err(ContractError::GateNotRegistered)
    );
    assert!(m.chains.entries.is_empty());
    m.register_gate(&s("owner"), s("g")).unwrap();
    assert_eq!(
        m.gate_set_permission(&s("x"), s("r"), s("c")),
        Err(ContractError::Unauthorized)
    );
    let b = BridgeMsgInfo {
        sender: s("a"),
        receiver: s("b"),
        src_position: position(1, &[]),
        dest_position: position(1, &[]),
    };
    assert_eq!(m.gate_receive_msg(&s("x"), &b), Err(ContractError::Unauthorized));
    assert_eq!(m.gate_revert_request(&s("x"), &b), Err(ContractError::Unauthorized));
}

#[test]
fn collect_then_revert_restores_position() {
    let mut m = ready_market();
    let u = s("u");
    m.increase_loan(&u, 300).unwrap();
    m.deposit(&u, vec![coin(100, "uAtom")]).unwrap();
    m.receive_cw20(&s("tok"), &u, 7, Cw20MsgType::Deposit {}).unwrap();
    let before = m.qy_position(&u).unwrap();
    let out = m
        .gate_collect_requests(&s("gate_contract"), vec![], &u, bridge(s("far"), s("injective"), Some(NativeInfo {
                path_middle_forward: vec![],
                dest_denom: s("ibc/uatom"),
                channel_id: s("channel-1"),
                timeout: None,
            })), vec![Route::Native, Route::Token { remote: s("far_tok") }])
        .unwrap();
    assert_eq!(m.qy_position(&u), Err(ContractError::UserNotFound));
    let bridge = match out.last().unwrap() {
        MarketMsg::SendRequests { bridge, funds, .. } => {
            assert_eq!(funds, &vec![coin(100, "uAtom")]);
            bridge
        }
        other => panic!("unexpected message {:?}", other),
    };
    assert_eq!(
        out[0],
        MarketMsg::GateBridge {
            token: s("tok"),
            chain: s("injective"),
            remote_receiver: s("remote_market_contract"),
            amount: 7,
            funds: vec![],
        }
    );
    m.gate_revert_request(&s("gate_contract"), bridge).unwrap();
    assert_eq!(m.qy_position(&u).unwrap(), before);

    let mut remote = ready_market();
    remote.gate_receive_msg(&s("gate_contract"), bridge).unwrap();
    assert_eq!(
        remote.qy_position(&s("far")).unwrap(),
        position(300, &[("ibc/uatom", 100), ("far_tok", 7)])
    );
}

#[test]
fn collect_refusals() {
    let mut m = ready_market();
    let u = s("u");
    let gate = s("gate_contract");
    let info = || {
        Some(NativeInfo {
            path_middle_forward: vec![],
            dest_denom: s("d"),
            channel_id: s("c"),
            timeout: None,
        })
    };
    assert_eq!(
        m.gate_collect_requests(&gate, vec![], &u, bridge(s("r"), s("injective"), info()), vec![]),
        Err(ContractError::UserNotFound)
    );
    m.deposit(&u, vec![coin(1, "n1")]).unwrap();
    m.deposit(&u, vec![coin(2, "n2")]).unwrap();
    assert_eq!(
        m.gate_collect_requests(&s("x"), vec![], &u, bridge(s("r"), s("injective"), info()), vec![]),
        Err(ContractError::Unauthorized)
    );
    assert_eq!(
        m.gate_collect_requests(&gate, vec![coin(1, "a"), coin(1, "b")], &u, bridge(s("r"), s("injective"), info()), vec![]),
        Err(ContractError::TooManyCoins)
    );
    assert_eq!(
        m.gate_collect_requests(&gate, vec![], &u, bridge(s("r"), s("injective"), info()), vec![Route::Native]),
        Err(ContractError::RoutesMismatch)
    );
    assert_eq!(
        m.gate_collect_requests(&gate, vec![], &u, bridge(s("r"), s("injective"), info()), vec![Route::Native, Route::Native]),
        Err(ContractError::NotBridgable)
    );
    assert_eq!(
        m.gate_collect_requests(&gate, vec![], &u, bridge(s("r"), s("injective"), None), vec![Route::Native, Route::Token { remote: s("t") }]),
        Err(ContractError::NativeInfoMissing)
    );
    assert_eq!(
        m.gate_collect_requests(&gate, vec![], &u, bridge(s("r"), s("osmosis"), info()), vec![Route::Native, Route::Token { remote: s("t") }]),
        Err(ContractError::ChainNotRegistered)
    );
    assert!(m.qy_position(&u).is_ok());
    let p = m.qy_position(&u).unwrap();
    assert_eq!(p.is_bridgable(&vec![Route::Native, Route::Native]), Err(ContractError::NotBridgable));
    assert_eq!(p.is_bridgable(&vec![Route::Native, Route::Token { remote: s("t") }]), Ok(()));
}

#[test]
fn revert_overflow_leaves_position_untouched() {
    let mut m = ready_market();
    m.deposit(&s("a"), vec![coin(u128::MAX, "x")]).unwrap();
    let b = BridgeMsgInfo {
        sender: s("a"),
        receiver: s("b"),
        src_position: position(5, &[("y", 1), ("x", 1)]),
        dest_position: position(0, &[]),
    };
    assert_eq!(m.gate_revert_request(&s("gate_contract"), &b), Err(ContractError::Overflow));
    assert_eq!(m.qy_position(&s("a")).unwrap(), position(0, &[("x", u128::MAX)]));
}

#[test]
fn colliding_remote_keys_are_refused_before_the_lock() {
    let native = || {
        Some(NativeInfo {
            path_middle_forward: vec![],
            dest_denom: s("ibc/n"),
            channel_id: s("channel-1"),
            timeout: None,
        })
    };
    let mut m = ready_market();
    let u = s("u");
    m.receive_cw20(&s("a"), &u, 1, Cw20MsgType::Deposit {}).unwrap();
    m.receive_cw20(&s("b"), &u, 2, Cw20MsgType::Deposit {}).unwrap();
    let shared = vec![Route::Token { remote: s("x") }, Route::Token { remote: s("x") }];
    assert_eq!(
        m.gate_collect_requests(&s("gate_contract"), vec![], &u, bridge(s("r"), s("injective"), None), shared),
        Err(ContractError::RouteCollision)
    );
    assert_eq!(m.qy_position(&u).unwrap(), position(0, &[("a", 1), ("b", 2)]));

    let mut m = ready_market();
    m.deposit(&u, vec![coin(5, "n")]).unwrap();
    m.receive_cw20(&s("t"), &u, 2, Cw20MsgType::Deposit {}).unwrap();
    let onto_native = vec![Route::Native, Route::Token { remote: s("ibc/n") }];
    assert_eq!(
        m.gate_collect_requests(&s("gate_contract"), vec![], &u, bridge(s("r"), s("injective"), native()), onto_native),
        Err(ContractError::RouteCollision)
    );
    assert_eq!(m.qy_position(&u).unwrap(), position(0, &[("n", 5), ("t", 2)]));

    let distinct = vec![Route::Native, Route::Token { remote: s("far_t") }];
    let out = m
        .gate_collect_requests(&s("gate_contract"), vec![], &u, bridge(s("r"), s("injective"), native()), distinct)
        .unwrap();
    match out.last().unwrap() {
        MarketMsg::SendRequests { bridge, .. } => {
            assert_eq!(bridge.dest_position, position(0, &[("ibc/n", 5), ("far_t", 2)]))
        }
        other => panic!("unexpected message {:?}", other),
    }
}
