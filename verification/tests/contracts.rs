use fractal_utils::amount::{Amount, AmountParseErrorKind};
use fractal_utils::location::Address;
use fractal_utils::relations::{get_relationship, get_relationship_id, Relationship};
use fractal_utils::wallet_address::{
    WalletAddress, WalletAddressParseErrorKind, WALLET_ADDRESS_LEN,
};
use fractal_utils::CURRENCY_SYMBOL;

#[test]
fn amount_error_kinds() {
    // Empty and non-numeric integer parts.
    assert_eq!(
        Amount::from_str("").unwrap_err().kind,
        AmountParseErrorKind::InvalidUnits
    );
    assert_eq!(
        Amount::from_str("abc").unwrap_err().kind,
        AmountParseErrorKind::InvalidUnits
    );
    assert_eq!(
        Amount::from_str("12a.5").unwrap_err().kind,
        AmountParseErrorKind::InvalidUnits
    );
    assert_eq!(
        Amount::from_str("-1").unwrap_err().kind,
        AmountParseErrorKind::InvalidUnits
    );
    // An integer part beyond what a 64-bit number can hold at all.
    assert_eq!(
        Amount::from_str("99999999999999999999999").unwrap_err().kind,
        AmountParseErrorKind::InvalidUnits
    );
    // An integer part that fits a 64-bit number but not a scaled amount.
    assert_eq!(
        Amount::from_str("18446744073709552").unwrap_err().kind,
        AmountParseErrorKind::UnitsTooLarge
    );
    assert_eq!(
        Amount::from_str("18446744073709552.5").unwrap_err().kind,
        AmountParseErrorKind::UnitsTooLarge
    );
    // A separator with nothing after it.
    assert_eq!(
        Amount::from_str("175.").unwrap_err().kind,
        AmountParseErrorKind::EmptyDecimals
    );
    // Non-numeric and oversized fractional parts.
    assert_eq!(
        Amount::from_str("175.6a").unwrap_err().kind,
        AmountParseErrorKind::InvalidDecimals
    );
    assert_eq!(
        Amount::from_str("0.99999999999999999999999").unwrap_err().kind,
        AmountParseErrorKind::InvalidDecimals
    );
    // More than one separator.
    assert_eq!(
        Amount::from_str("175.837.9239").unwrap_err().kind,
        AmountParseErrorKind::MultipleSeparators
    );
    // Integer and fractional part together beyond the largest amount.
    assert_eq!(
        Amount::from_str("18446744073709551.9").unwrap_err().kind,
        AmountParseErrorKind::SumTooLarge
    );
}

#[test]
fn amount_round_trip_samples() {
    for repr in [
        0u64,
        1,
        999,
        1_000,
        1_001,
        56_000,
        175_646,
        175_600,
        1_500,
        u64::MAX - 1,
        u64::MAX,
    ] {
        let amount = Amount::from_repr(repr);
        let text = amount.format(None, None);
        assert_eq!(Amount::from_str(&text).unwrap(), amount);
    }
}

#[test]
fn amount_rounding_carries_into_units() {
    // Half-up rounding of the fourth fractional digit can carry through the
    // whole fractional part.
    let amount = Amount::from_str(".9995").unwrap();
    assert_eq!(amount, Amount::from_repr(1_000));
    assert_eq!(amount.format(None, None), "1");
}

#[test]
fn amount_getters_and_bounds() {
    assert_eq!(Amount::from_repr(42).get_repr(), 42);
    assert_eq!(Amount::min_value().get_repr(), u64::MIN);
    assert_eq!(Amount::max_value().get_repr(), u64::MAX);
    assert_eq!(CURRENCY_SYMBOL, '\u{03FE}');
}

#[test]
fn amount_error_description() {
    let err = Amount::from_str("175.").unwrap_err();
    assert_eq!(
        err.describe(),
        "no decimals were found after the decimal separator"
    );
}

#[test]
fn wallet_address_zero_text() {
    // The all-zero address encodes nine zero bytes, each a one in base-58.
    let addr = WalletAddress::from_data([0u8; WALLET_ADDRESS_LEN]);
    assert_eq!(addr.to_text(), "fr111111111");
    let parsed = WalletAddress::from_str("fr111111111").unwrap();
    assert_eq!(parsed.get_raw(), &[0u8; WALLET_ADDRESS_LEN][..]);
}

#[test]
fn wallet_address_tag_rejection() {
    for text in ["", "f", "fx111111111", "aa111111111", "11111111111", "rf"] {
        assert_eq!(
            WalletAddress::from_str(text).unwrap_err().kind,
            WalletAddressParseErrorKind::MissingTag
        );
    }
}

#[test]
fn wallet_address_invalid_encoding() {
    // A zero digit is not in the base-58 alphabet; the reported position is
    // offset by the tag length.
    let err = WalletAddress::from_str("fr0").unwrap_err();
    assert_eq!(
        err.kind,
        WalletAddressParseErrorKind::InvalidEncoding {
            byte: b'0',
            position: 2,
        }
    );
    assert!(WalletAddress::from_str("frO111111111").is_err());
    assert!(WalletAddress::from_str("frIl11111111").is_err());
}

#[test]
fn wallet_address_checksum_sensitivity() {
    // Tampering with the encoded text of a valid address must not parse.
    let addr = WalletAddress::from_data([0x00, 0x11, 0x2A, 0x44, 0xCD, 0xFF, 0xE0]);
    let text = addr.to_text();
    assert_eq!(
        WalletAddress::from_str(&text).unwrap().get_raw(),
        addr.get_raw()
    );
    // Flip the final character (a checksum character) to its neighbours.
    let mut tampered: Vec<char> = text.chars().collect();
    let last = *tampered.last().unwrap();
    for replacement in ['1', '2', '3', 'z'] {
        if replacement != last {
            let n = tampered.len();
            tampered[n - 1] = replacement;
            let flipped: String = tampered.iter().collect();
            assert!(WalletAddress::from_str(&flipped).is_err());
        }
    }
    // The documented checksum example: tampered checksum bytes are caught.
    let mut decoded = vec![0x00u8, 0x11, 0x2A, 0x44, 0xCD, 0xFF, 0xE0, 0xAD, 0x07];
    assert_eq!(
        WalletAddress::from_decoded(&decoded).unwrap().get_raw(),
        addr.get_raw()
    );
    decoded[7] ^= 1;
    assert_eq!(
        WalletAddress::from_decoded(&decoded).unwrap_err().kind,
        WalletAddressParseErrorKind::ChecksumMismatch
    );
}

#[test]
fn wallet_address_decoded_rejections() {
    // Too short.
    assert_eq!(
        WalletAddress::from_decoded(&vec![0u8, 1, 2]).unwrap_err().kind,
        WalletAddressParseErrorKind::WrongTagByte
    );
    // Wrong reserved byte.
    assert_eq!(
        WalletAddress::from_decoded(&vec![1u8, 0, 0, 0, 0, 0, 0, 0, 0])
            .unwrap_err()
            .kind,
        WalletAddressParseErrorKind::WrongTagByte
    );
    // The short-string form of the same rejections.
    assert_eq!(
        WalletAddress::from_str("fr1").unwrap_err().kind,
        WalletAddressParseErrorKind::WrongTagByte
    );
    assert_eq!(
        WalletAddress::from_str("fr").unwrap_err().kind,
        WalletAddressParseErrorKind::WrongTagByte
    );
}

#[test]
fn relationship_id_mapping() {
    let all = [
        Relationship::Stranger,
        Relationship::Acquaintance,
        Relationship::CoWorker,
        Relationship::Friend,
        Relationship::Family,
    ];
    for (id, rel) in all.iter().enumerate() {
        assert_eq!(get_relationship_id(*rel), id as u8);
        assert_eq!(get_relationship(id as u8), *rel);
    }
}

#[test]
fn location_getters() {
    let addr = Address::new(
        String::from("12 High Street"),
        Some(String::from("Flat 3")),
        String::from("Springfield"),
        String::from("TA"),
        String::from("00001"),
        String::from("Freedonia"),
    );
    assert_eq!(addr.get_address1(), "12 High Street");
    assert_eq!(addr.get_address2(), Some("Flat 3"));
    assert_eq!(addr.get_city(), "Springfield");
    assert_eq!(addr.get_state(), "TA");
    assert_eq!(addr.get_zip(), "00001");
    assert_eq!(addr.get_country(), "Freedonia");

    let bare = Address::new(
        String::from("1 Main"),
        None,
        String::from("Town"),
        String::from("ST"),
        String::from("99999"),
        String::from("Elbonia"),
    );
    assert_eq!(bare.get_address2(), None);
}
