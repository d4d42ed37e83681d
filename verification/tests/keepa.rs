use hookpop::error::{BAD_GATEWAY, BAD_REQUEST, SERVICE_UNAVAILABLE};
use hookpop::keepa::{
    clean_keepa_text, keepa_cache_is_fresh, keepa_cache_key, keepa_query, keepa_request_domain,
    keepa_status_error, product_from_keepa, source_url, KeepaImage, ProductCache, KeepaProduct, KeepaResponse,
    KEEPA_KEY_MISSING, KEEPA_MARKETPLACE_UNSUPPORTED, KEEPA_NOT_FOUND, KEEPA_NO_TITLE,
    KEEPA_REFUSED,
};

fn image(large: Option<&str>, medium: Option<&str>) -> KeepaImage {
    KeepaImage { large: large.map(String::from), medium: medium.map(String::from) }
}

fn keepa_product(title: Option<&str>, features: Option<Vec<&str>>, images: Option<Vec<KeepaImage>>) -> KeepaProduct {
    KeepaProduct {
        asin: "B08N5WRWNW".to_string(),
        title: title.map(String::from),
        features: features.map(|fs| fs.into_iter().map(String::from).collect()),
        images,
    }
}

fn reply(products: Option<Vec<KeepaProduct>>, has_error: bool) -> KeepaResponse {
    KeepaResponse { products, has_error }
}

#[test]
fn clean_strips_tags_and_collapses_whitespace() {
    assert_eq!(clean_keepa_text("<b>Great</b>  &amp; <i>durable</i>\n\tbag "), "Great & durable bag");
}

#[test]
fn clean_decodes_entities_in_order() {
    assert_eq!(clean_keepa_text("&quot;Soft&quot; &#39;n&#39; light &lt;3 &gt; 2"), "\"Soft\" 'n' light <3 > 2");
    assert_eq!(clean_keepa_text("&amp;lt;b&amp;gt;"), "<b>");
}

#[test]
fn clean_of_blank_text_is_empty() {
    assert_eq!(clean_keepa_text("   <br/> \n "), "");
    assert_eq!(clean_keepa_text(""), "");
}

#[test]
fn clean_drops_text_after_unclosed_tag() {
    assert_eq!(clean_keepa_text("Fits < 5 kg"), "Fits");
}

#[test]
fn clean_keeps_text_outside_tags_only() {
    assert_eq!(clean_keepa_text("a<x>b</x>c"), "abc");
}

#[test]
fn product_is_mapped_from_first_keepa_product() {
    let p = keepa_product(
        Some("  Travel <b>Bag</b> "),
        Some(vec!["one", "  ", "<i></i>", "two &amp; three", "four", "five", "six", "seven"]),
        Some(vec![image(None, None), image(None, Some("m.jpg")), image(Some("l.jpg"), None)]),
    );
    let r = product_from_keepa(&reply(Some(vec![p]), false), "B08N5WRWNW", "de").ok().unwrap();
    assert_eq!(r.asin, "B08N5WRWNW");
    assert_eq!(r.marketplace, "de");
    assert_eq!(r.source_url, "https://www.amazon.de/dp/B08N5WRWNW");
    assert_eq!(r.title, "Travel Bag");
    assert_eq!(r.main_image_url, "https://m.media-amazon.com/images/I/m.jpg");
    assert_eq!(r.bullet_points, vec!["one", "two & three", "four", "five", "six"]);
}

#[test]
fn large_image_is_preferred_over_medium() {
    let p = keepa_product(Some("T"), None, Some(vec![image(Some("big.jpg"), Some("mid.jpg"))]));
    let r = product_from_keepa(&reply(Some(vec![p]), false), "A", "com").ok().unwrap();
    assert_eq!(r.main_image_url, "https://m.media-amazon.com/images/I/big.jpg");
    assert!(r.bullet_points.is_empty());
}

#[test]
fn missing_or_empty_image_gives_empty_url() {
    let p = keepa_product(Some("T"), Some(vec![]), None);
    let r = product_from_keepa(&reply(Some(vec![p]), false), "A", "com").ok().unwrap();
    assert_eq!(r.main_image_url, "");
    let p = keepa_product(Some("T"), None, Some(vec![image(Some(""), Some("x"))]));
    let r = product_from_keepa(&reply(Some(vec![p]), false), "A", "com").ok().unwrap();
    assert_eq!(r.main_image_url, "");
}

#[test]
fn keepa_error_member_is_a_refusal() {
    let p = keepa_product(Some("T"), None, None);
    let e = product_from_keepa(&reply(Some(vec![p]), true), "A", "com").err().unwrap();
    assert_eq!(e.status, BAD_GATEWAY);
    assert_eq!(e.message, KEEPA_REFUSED);
}

#[test]
fn no_product_is_not_found() {
    let e = product_from_keepa(&reply(None, false), "A", "com").err().unwrap();
    assert_eq!(e.message, KEEPA_NOT_FOUND);
    let e = product_from_keepa(&reply(Some(vec![]), false), "A", "com").err().unwrap();
    assert_eq!(e.message, KEEPA_NOT_FOUND);
}

#[test]
fn missing_or_blank_title_is_rejected() {
    let e = product_from_keepa(&reply(Some(vec![keepa_product(None, None, None)]), false), "A", "com").err().unwrap();
    assert_eq!(e.message, KEEPA_NO_TITLE);
    let e = product_from_keepa(&reply(Some(vec![keepa_product(Some("<p> </p>"), None, None)]), false), "A", "com").err().unwrap();
    assert_eq!(e.status, 502);
    assert_eq!(e.message, KEEPA_NO_TITLE);
}

#[test]
fn cache_key_and_freshness() {
    assert_eq!(keepa_cache_key("co.uk", "B08N5WRWNW"), "co.uk:B08N5WRWNW");
    let hour: u128 = 3_600_000_000_000;
    assert!(keepa_cache_is_fresh(0, 0));
    assert!(keepa_cache_is_fresh(5, 5 + 6 * hour - 1));
    assert!(!keepa_cache_is_fresh(5, 5 + 6 * hour));
    assert!(!keepa_cache_is_fresh(0, u128::MAX));
    assert!(keepa_cache_is_fresh(10, 3));
}

#[test]
fn status_errors_name_the_status() {
    assert!(keepa_status_error(200).is_none());
    assert!(keepa_status_error(299).is_none());
    let e = keepa_status_error(429).unwrap();
    assert_eq!(e.status, BAD_GATEWAY);
    assert_eq!(e.message, "Keepa 请求失败（429）。");
    assert_eq!(keepa_status_error(199).unwrap().message, "Keepa 请求失败（199）。");
    assert_eq!(keepa_status_error(300).unwrap().message, "Keepa 请求失败（300）。");
    assert_eq!(keepa_status_error(0).unwrap().message, "Keepa 请求失败（0）。");
    assert_eq!(keepa_status_error(65535).unwrap().message, "Keepa 请求失败（65535）。");
}

#[test]
fn request_needs_key_then_supported_marketplace() {
    let e = keepa_request_domain(None, "com").err().unwrap();
    assert_eq!(e.status, SERVICE_UNAVAILABLE);
    assert_eq!(e.message, KEEPA_KEY_MISSING);
    let e = keepa_request_domain(None, "nl").err().unwrap();
    assert_eq!(e.status, SERVICE_UNAVAILABLE);
    let e = keepa_request_domain(Some("k"), "nl").err().unwrap();
    assert_eq!(e.status, BAD_REQUEST);
    assert_eq!(e.message, KEEPA_MARKETPLACE_UNSUPPORTED);
    assert_eq!(keepa_request_domain(Some("k"), "com.mx").ok(), Some("11"));
}

#[test]
fn query_parameters() {
    let q = keepa_query("secret", "3", "B08N5WRWNW");
    let expected: Vec<(String, String)> = vec![
        ("key".into(), "secret".into()),
        ("domain".into(), "3".into()),
        ("asin".into(), "B08N5WRWNW".into()),
        ("history".into(), "0".into()),
        ("stats".into(), "0".into()),
    ];
    assert_eq!(q, expected);
}

#[test]
fn source_url_format() {
    assert_eq!(source_url("com", "B0"), "https://www.amazon.com/dp/B0");
}

#[test]
fn cache_keys_differ_for_different_products() {
    assert_ne!(keepa_cache_key("com", "B000000001"), keepa_cache_key("de", "B000000001"));
    assert_ne!(keepa_cache_key("com", "B000000001"), keepa_cache_key("com", "B000000002"));
}

#[test]
fn cleaned_text_is_whitespace_normal() {
    let t = clean_keepa_text("\u{a0} a \n\n b\t\tc \u{2003}");
    assert_eq!(t, "a b c");
    assert!(!t.starts_with(' ') && !t.ends_with(' ') && !t.contains("  "));
}

fn sample_product(title: &str) -> hookpop::product::Product {
    hookpop::product::Product {
        asin: "B08N5WRWNW".into(),
        marketplace: "com".into(),
        source_url: "https://www.amazon.com/dp/B08N5WRWNW".into(),
        title: title.into(),
        main_image_url: String::new(),
        bullet_points: vec!["a".into(), "b".into()],
    }
}

#[test]
fn cache_serves_fresh_products_only() {
    let hour: u128 = 3_600_000_000_000;
    let mut cache = ProductCache::new();
    assert!(cache.lookup("com:B08N5WRWNW", 0).is_none());
    cache.store("com:B08N5WRWNW".into(), sample_product("First"), 100);
    let p = cache.lookup("com:B08N5WRWNW", 100 + hour).unwrap();
    assert_eq!(p.title, "First");
    assert_eq!(p.bullet_points, vec!["a", "b"]);
    assert!(cache.lookup("com:B08N5WRWNW", 100 + 6 * hour).is_none());
    assert!(cache.lookup("de:B08N5WRWNW", 100).is_none());
}

#[test]
fn cache_store_replaces_and_keeps_others() {
    let mut cache = ProductCache::new();
    cache.store("com:A".into(), sample_product("A1"), 0);
    cache.store("de:A".into(), sample_product("A2"), 0);
    cache.store("com:A".into(), sample_product("A3"), 50);
    assert_eq!(cache.entries.len(), 2);
    assert_eq!(cache.lookup("com:A", 60).unwrap().title, "A3");
    assert_eq!(cache.lookup("de:A", 60).unwrap().title, "A2");
}
