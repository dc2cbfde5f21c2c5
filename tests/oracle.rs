use ibc_market::coin::Coin;
use ibc_market::oracle::{Decimal, Oracle, OracleError, OracleMsg};

const ONE: u128 = 1_000_000_000_000_000_000;

fn s(x: &str) -> String {
    x.to_string()
}

fn dec(units: u128) -> Decimal {
    Decimal { atomics: units * ONE }
}

fn register_and_feed(o: &mut Oracle, owner: &str, feeder: &str, asset: String, price: Decimal) {
    o.register_asset(&s(owner), asset.clone(), s(feeder)).unwrap();
    o.feed_price(&s(feeder), &asset, price).unwrap();
}

#[test]
fn oracle_main() {
    let mut o = Oracle::instantiate(s("onwer000"));
    o.register_gate(&s("onwer000"), s("gate_contract")).unwrap();
    let asset_name = s("asset000");
    register_and_feed(&mut o, "onwer000", "feeder000", asset_name.clone(), dec(1));
    assert_eq!(o.qy_price(&asset_name), Ok(dec(1)));

    o.feed_price(&s("feeder000"), &asset_name, dec(2)).unwrap();
    assert_eq!(o.qy_price(&asset_name), Ok(dec(2)));
    o.gate_query_response(&s("gate_contract"), vec![(asset_name.clone(), dec(1))]).unwrap();
    assert_eq!(o.qy_price(&asset_name), Ok(dec(1)));

    for (i, name) in ["asset_2", "asset_3", "asset_4", "asset_5"].iter().enumerate() {
        register_and_feed(&mut o, "onwer000", "feeder000", s(name), dec(i as u128 + 2));
    }
    let page = o.qy_prices(None, Some(3));
    assert_eq!(page.len(), 3);
    let page = o.qy_prices(Some(page.last().unwrap().0.clone()), Some(3));
    assert_eq!(page.len(), 2);
    assert_eq!(page.last().unwrap().1, Some(dec(5)));
}

#[test]
fn prices_come_in_byte_order() {
    let mut o = Oracle::instantiate(s("o"));
    for name in ["b", "a_", "B", "a", "ab"] {
        o.register_asset(&s("o"), s(name), s("f")).unwrap();
    }
    let names: Vec<String> = o.qy_prices(None, None).into_iter().map(|e| e.0).collect();
    assert_eq!(names, vec![s("B"), s("a"), s("a_"), s("ab"), s("b")]);
    let after: Vec<String> = o.qy_prices(Some(s("a0")), Some(2)).into_iter().map(|e| e.0).collect();
    assert_eq!(after, vec![s("a_"), s("ab")]);
    assert!(o.qy_prices(Some(s("c")), None).is_empty());
    assert_eq!(o.qy_prices(None, None)[0].1, None);
}

#[test]
fn oracle_refusals() {
    let mut o = Oracle::instantiate(s("o"));
    assert_eq!(o.register_asset(&s("x"), s("a"), s("f")), Err(OracleError::Unauthorized));
    o.register_asset(&s("o"), s("a"), s("f")).unwrap();
    assert_eq!(o.register_asset(&s("o"), s("a"), s("g")), Err(OracleError::AssetAlredyRegistered));
    assert_eq!(o.qy_price(&s("a")), Err(OracleError::PriceNeverFeeded));
    assert_eq!(o.qy_price(&s("z")), Err(OracleError::AssetNotFound));
    assert_eq!(o.feed_price(&s("g"), &s("a"), dec(1)), Err(OracleError::Unauthorized));
    assert_eq!(o.feed_price(&s("f"), &s("z"), dec(1)), Err(OracleError::AssetNotFound));
    assert_eq!(
        o.gate_query_response(&s("gate"), vec![(s("a"), dec(1))]),
        Err(OracleError::GateNotRegistered)
    );
    assert_eq!(o.gate_set_permission(&s("o"), s("r"), s("c")), Err(OracleError::GateNotRegistered));
    o.register_gate(&s("o"), s("gate")).unwrap();
    assert_eq!(
        o.gate_query_response(&s("x"), vec![(s("a"), dec(1))]),
        Err(OracleError::Unauthorized)
    );
    assert_eq!(
        o.gate_query_response(&s("gate"), vec![(s("a"), dec(7)), (s("z"), dec(1))]),
        Err(OracleError::AssetNotFound)
    );
    assert_eq!(o.qy_price(&s("a")), Err(OracleError::PriceNeverFeeded));
    assert_eq!(
        o.feed_remote_price(&s("f"), vec![], s("a"), s("c")),
        Err(OracleError::ChainNotRegistered)
    );
}

#[test]
fn remote_price_request_goes_through_gate() {
    let mut o = Oracle::instantiate(s("o"));
    o.register_gate(&s("o"), s("gate")).unwrap();
    let msg = o.gate_set_permission(&s("o"), s("remote_oracle"), s("injective")).unwrap();
    assert_eq!(
        msg,
        OracleMsg::SetPermission { gate: s("gate"), chain: s("injective"), addresses: vec![s("remote_oracle")] }
    );
    o.register_asset(&s("o"), s("a"), s("f")).unwrap();
    let fee = Coin { denom: s("uluna"), amount: 3 };
    let msg = o.feed_remote_price(&s("f"), vec![fee.clone()], s("a"), s("injective")).unwrap();
    assert_eq!(
        msg,
        OracleMsg::QueryPrice {
            gate: s("gate"),
            chain: s("injective"),
            remote_contract: s("remote_oracle"),
            asset: s("a"),
            funds: vec![fee],
        }
    );
    assert_eq!(o.feed_remote_price(&s("g"), vec![], s("a"), s("injective")), Err(OracleError::Unauthorized));
}
