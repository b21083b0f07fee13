use hyperliquid_rust_sdk::identifiers::{normalize_spot_pair_id, outcome_alias_candidates};
use hyperliquid_rust_sdk::text::{decimal_string, trimmed};
use hyperliquid_rust_sdk::{outcome_encoding_from_identifier, resolve_outcome_asset_id_from_identifier};

#[test]
fn every_identifier_form_names_the_same_encoding() {
    for form in ["#31", "+31", "31", "100000031", "  #31\t"] {
        assert_eq!(outcome_encoding_from_identifier(form), Some(31), "{form}");
        assert_eq!(resolve_outcome_asset_id_from_identifier(form), Some(100000031), "{form}");
    }
}

#[test]
fn identifiers_that_name_no_outcome_side() {
    for bad in ["", "   ", "#", "+", "#+20", "+#20", "-20", "2a", "20x", "#9", "9", "12", "#22", "100000009"] {
        assert_eq!(outcome_encoding_from_identifier(bad), None, "{bad:?}");
        assert_eq!(resolve_outcome_asset_id_from_identifier(bad), None, "{bad:?}");
    }
    // too large for a u32
    assert_eq!(outcome_encoding_from_identifier("4294967296"), None);
    // an asset id whose encoding has side 5
    assert_eq!(outcome_encoding_from_identifier("4294967295"), None);
}

#[test]
fn leading_zeros_and_the_first_outcome() {
    assert_eq!(outcome_encoding_from_identifier("#010"), Some(10));
    assert_eq!(outcome_encoding_from_identifier("11"), Some(11));
    assert_eq!(resolve_outcome_asset_id_from_identifier("10"), Some(100000010));
}

#[test]
fn spot_pair_ids_are_normalised_once_and_for_all() {
    assert_eq!(normalize_spot_pair_id("107"), "@107");
    assert_eq!(normalize_spot_pair_id("  107 "), "@107");
    assert_eq!(normalize_spot_pair_id("@107"), "@107");
    assert_eq!(normalize_spot_pair_id(&normalize_spot_pair_id(" 42")), "@42");
    assert_eq!(normalize_spot_pair_id(" PURR/USDC "), "PURR/USDC");
    assert_eq!(normalize_spot_pair_id("   "), "");
}

#[test]
fn alias_candidates_of_an_outcome_coin() {
    assert_eq!(
        outcome_alias_candidates(" #20 "),
        vec!["#20".to_string(), "+20".to_string(), "20".to_string(), "100000020".to_string()]
    );
    assert_eq!(
        outcome_alias_candidates("100000021"),
        vec!["100000021".to_string(), "#21".to_string(), "+21".to_string(), "21".to_string()]
    );
    assert_eq!(outcome_alias_candidates(" BTC "), vec!["BTC".to_string()]);
    assert!(outcome_alias_candidates("  ").is_empty());
}

#[test]
fn trimming_removes_unicode_white_space_at_both_ends() {
    assert_eq!(trimmed("\u{3000} a b\u{2029}\t"), "a b");
    assert_eq!(trimmed("   "), "");
    assert_eq!(trimmed(""), "");
    assert_eq!(trimmed("x\u{85}"), "x");
    assert_eq!(trimmed("\u{200b}x"), "\u{200b}x");
}

#[test]
fn decimal_strings_have_no_leading_zeros() {
    assert_eq!(decimal_string(0), "0");
    assert_eq!(decimal_string(7), "7");
    assert_eq!(decimal_string(100000040), "100000040");
    assert_eq!(decimal_string(u64::MAX), u64::MAX.to_string());
}
