use hookpop::error::{BAD_REQUEST, INVALID_PRODUCT_INPUT};
use hookpop::marketplace::{keepa_domain_id, normalize_product_input};

fn ok(input: &str, fallback: Option<&str>) -> (String, String) {
    match normalize_product_input(input, fallback) {
        Some(Ok(pair)) => pair,
        Some(Err(e)) => panic!("unexpected error {}", e.message),
        None => panic!("unexpected slicing failure"),
    }
}

#[test]
fn plain_asin_is_uppercased_with_default_marketplace() {
    assert_eq!(ok("b0abc12345", None), ("B0ABC12345".to_string(), "com".to_string()));
}

#[test]
fn plain_asin_is_trimmed() {
    assert_eq!(ok("  B0ABC12345 \n", None), ("B0ABC12345".to_string(), "com".to_string()));
}

#[test]
fn fallback_marketplace_is_lowercased() {
    assert_eq!(ok("B0ABC12345", Some("DE")), ("B0ABC12345".to_string(), "de".to_string()));
}

#[test]
fn dp_link_selects_its_marketplace() {
    assert_eq!(
        ok("https://www.amazon.co.uk/dp/b08n5wrwnw?ref=abc", Some("com")),
        ("B08N5WRWNW".to_string(), "co.uk".to_string())
    );
}

#[test]
fn gp_product_link_is_read() {
    assert_eq!(
        ok("https://www.Amazon.co.jp/gp/product/B01ABCDE23/ref=x", None),
        ("B01ABCDE23".to_string(), "co.jp".to_string())
    );
}

#[test]
fn unsupported_link_domain_keeps_fallback() {
    assert_eq!(
        ok("https://www.amazon.nl/dp/B08N5WRWNW", Some("FR")),
        ("B08N5WRWNW".to_string(), "fr".to_string())
    );
}

#[test]
fn link_without_product_path_is_rejected() {
    let r = normalize_product_input("https://www.amazon.com/s?k=bag", None).unwrap();
    let e = r.err().unwrap();
    assert_eq!(e.status, BAD_REQUEST);
    assert_eq!(e.message, INVALID_PRODUCT_INPUT);
}

#[test]
fn short_asin_is_rejected() {
    let e = normalize_product_input("B0ABC", None).unwrap().err().unwrap();
    assert_eq!(e.status, 400);
}

#[test]
fn non_alphanumeric_asin_is_rejected() {
    let e = normalize_product_input("B0ABC-1234", None).unwrap().err().unwrap();
    assert_eq!(e.message, INVALID_PRODUCT_INPUT);
}

#[test]
fn non_ascii_asin_is_rejected() {
    assert!(normalize_product_input("B0ABC1234é", None).unwrap().is_err());
}

#[test]
fn short_tail_after_marker_is_rejected() {
    assert!(normalize_product_input("amazon.com/dp/B0A", None).unwrap().is_err());
}

#[test]
fn marker_offset_past_the_input_is_reported() {
    assert!(normalize_product_input("İİİİİİamazon.com/dp/", None).is_none());
}

#[test]
fn keepa_domain_ids() {
    assert_eq!(keepa_domain_id("com"), Some("1"));
    assert_eq!(keepa_domain_id("co.uk"), Some("2"));
    assert_eq!(keepa_domain_id("de"), Some("3"));
    assert_eq!(keepa_domain_id("fr"), Some("4"));
    assert_eq!(keepa_domain_id("co.jp"), Some("5"));
    assert_eq!(keepa_domain_id("ca"), Some("6"));
    assert_eq!(keepa_domain_id("it"), Some("8"));
    assert_eq!(keepa_domain_id("es"), Some("9"));
    assert_eq!(keepa_domain_id("com.mx"), Some("11"));
    assert_eq!(keepa_domain_id("nl"), None);
    assert_eq!(keepa_domain_id("COM"), None);
}

#[test]
fn every_link_marketplace_has_a_keepa_domain() {
    for d in ["com", "co.uk", "de", "es", "fr", "it", "co.jp", "ca", "com.mx"] {
        let link = format!("https://www.amazon.{d}/dp/B08N5WRWNW");
        let (_, m) = ok(&link, Some("xx"));
        assert_eq!(m, d);
        assert!(keepa_domain_id(&m).is_some());
    }
}

#[test]
fn normalizing_a_normalized_pair_changes_nothing() {
    for (input, fallback) in [
        ("https://www.amazon.co.uk/dp/b08n5wrwnw?ref=abc", None),
        ("b0abc12345", Some("DE")),
        ("  B0ABC12345 ", None),
        ("https://www.amazon.nl/dp/B08N5WRWNW", Some("Fr")),
    ] {
        let (a, m) = ok(input, fallback);
        assert_eq!(ok(&a, Some(&m)), (a.clone(), m.clone()));
    }
}

#[test]
fn default_and_supported_fallbacks_reach_keepa() {
    let (_, m) = ok("B0ABC12345", None);
    assert_eq!(keepa_domain_id(&m), Some("1"));
    let (_, m) = ok("B0ABC12345", Some("CO.JP"));
    assert_eq!(keepa_domain_id(&m), Some("5"));
}

#[test]
fn tab_and_newline_are_trimmed() {
    assert_eq!(ok("\t\nB0ABC12345\r\n", None), ("B0ABC12345".to_string(), "com".to_string()));
}
