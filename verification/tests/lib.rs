use fractal_utils::amount::Amount;
use fractal_utils::wallet_address::{WalletAddress, WALLET_ADDRESS_LEN};

#[test]
fn it_fromstr_walletaddress() {
    for _ in 0..50 {
        let mut random_addr = [0u8; WALLET_ADDRESS_LEN];
        rand::fill(&mut random_addr[1..]);
        let text = WalletAddress::from_data(random_addr).to_text();
        assert_eq!(
            WalletAddress::from_str(&text).unwrap().get_raw(),
            &random_addr[..]
        );
    }
}

#[test]
fn it_amount_parse() {
    let amount: Amount = Amount::from_str("175.646").unwrap();
    assert_eq!(amount, Amount::from_repr(175_646));
    assert_eq!(amount.format(None, None), "175.646");

    let amount: Amount = Amount::from_str("175.64").unwrap();
    assert_eq!(amount, Amount::from_repr(175_640));
    assert_eq!(amount.format(None, None), "175.64");

    let amount: Amount = Amount::from_str("175.6").unwrap();
    assert_eq!(amount, Amount::from_repr(175_600));
    assert_eq!(amount.format(None, None), "175.6");

    let amount: Amount = Amount::from_str("175.000").unwrap();
    assert_eq!(amount, Amount::from_repr(175_000));
    assert_eq!(amount.format(None, None), "175");

    let amount: Amount = Amount::from_str("175.00").unwrap();
    assert_eq!(amount, Amount::from_repr(175_000));
    assert_eq!(amount.format(None, None), "175");

    let amount: Amount = Amount::from_str("175.0").unwrap();
    assert_eq!(amount, Amount::from_repr(175_000));
    assert_eq!(amount.format(None, None), "175");

    let amount: Amount = Amount::from_str("175").unwrap();
    assert_eq!(amount, Amount::from_repr(175_000));
    assert_eq!(amount.format(None, None), "175");

    let amount = Amount::max_value();
    assert_eq!(
        amount.format(None, None),
        format!("{}.{}", u64::MAX / 1_000, u64::MAX % 1_000)
    );

    let amount: Amount = Amount::from_str(&amount.format(None, None)).unwrap();
    assert_eq!(amount, Amount::max_value());

    let amount = Amount::min_value();
    assert_eq!(amount.format(None, None), "0");

    let amount: Amount = Amount::from_str("0").unwrap();
    assert_eq!(amount, Amount::min_value());

    let amount: Amount = Amount::from_str("0.00012").unwrap();
    assert_eq!(amount, Amount::from_repr(0));
    assert_eq!(amount.format(None, None), "0");

    let amount: Amount = Amount::from_str("175.6469").unwrap();
    assert_eq!(amount, Amount::from_repr(175_647));
    assert_eq!(amount.format(None, None), "175.647");

    let amount: Amount = Amount::from_str("175.6465").unwrap();
    assert_eq!(amount, Amount::from_repr(175_647));
    assert_eq!(amount.format(None, None), "175.647");

    let amount: Amount = Amount::from_str("175.6464").unwrap();
    assert_eq!(amount, Amount::from_repr(175_646));
    assert_eq!(amount.format(None, None), "175.646");

    let amount: Amount = Amount::from_str(".6465").unwrap();
    assert_eq!(amount, Amount::from_repr(647));
    assert_eq!(amount.format(None, None), "0.647");
}

#[test]
fn it_amount_other_format() {
    let amount = Amount::from_repr(56_000); // 56.000
    assert_eq!(amount.format(None, None), "56");
    assert_eq!(amount.format(Some(2), None), "56.00");
    assert_eq!(amount.format(Some(5), None), "56.00000");
    assert_eq!(amount.format(None, Some(5)), "00056");
    assert_eq!(amount.format(Some(2), Some(5)), "56.00");
    assert_eq!(amount.format(Some(1), Some(5)), "056.0");

    let amount = Amount::from_repr(56); // 0.056
    assert_eq!(amount.format(Some(0), None), "0");
    assert_eq!(amount.format(Some(2), None), "0.06");

    let amount = Amount::from_repr(1500); // 1.500
    assert_eq!(amount.format(Some(0), None), "2");
}

#[test]
fn it_amount_bad_format() {
    let amount = Amount::from_str("175.");
    assert!(amount.is_err());

    let amount = Amount::from_str("175.837.9239");
    assert!(amount.is_err());

    let amount = Amount::from_str(".098320.2930");
    assert!(amount.is_err());
}

#[test]
fn it_amount_ops() {
    let mut amount = Amount::min_value();
    let amount_10 = Amount::from_repr(10_000);
    assert_eq!(amount.add(amount_10), Amount::from_repr(10_000));
    amount = amount.add(amount_10);
    assert_eq!(amount, Amount::from_repr(10_000));

    assert_eq!(amount.sub(amount_10), Amount::min_value());
    amount = amount.sub(amount_10);
    assert_eq!(amount, Amount::min_value());

    amount = amount.add(amount_10);
    assert_eq!(amount.mul(10), Amount::from_repr(100_000));
    amount = amount.mul(10);
    assert_eq!(amount, Amount::from_repr(100_000));

    assert_eq!(amount.div(10), Amount::from_repr(10_000));
    amount = amount.div(10);
    assert_eq!(amount, Amount::from_repr(10_000));

    let mut amount = Amount::from_repr(12_345);
    assert_eq!(amount.rem(10), Amount::from_repr(2_345));
    amount = amount.rem(10);
    assert_eq!(amount, Amount::from_repr(2_345));
    assert_eq!(amount.rem(1), Amount::from_repr(345));
}
