//! The Keepa Product API: request preparation, the product cache rule, and the mapping of a
//! Keepa reply to a normalized product.

use vstd::prelude::*;
use crate::error::{ApiError, BAD_GATEWAY, BAD_REQUEST, SERVICE_UNAVAILABLE};
use crate::marketplace::{keepa_domain_id, keepa_domain_spec};
use crate::product::{product_view, Product};
use crate::text::{
    text_eq,    decimal, decimal_chars, take_upto,
    chars_of, join, join_char_vecs, replace_all, replace_chars, split_words, string_of,
    strings_view, words, is_whitespace_normal,
    lemma_joined_words_normal,
};

verus! {

/// The characters of `s` outside `<...>` tags; `inside` tells whether a tag is open.
pub open spec fn strip_tags_from(s: Seq<char>, inside: bool) -> Seq<char>
    decreases s.len(),
{
    if s.len() == 0 {
        seq![]
    } else if s[0] == '<' {
        strip_tags_from(s.drop_first(), true)
    } else if s[0] == '>' {
        strip_tags_from(s.drop_first(), false)
    } else if !inside {
        seq![s[0]] + strip_tags_from(s.drop_first(), inside)
    } else {
        strip_tags_from(s.drop_first(), inside)
    }
}

/// The five HTML entities that Keepa text may hold, decoded in turn.
pub open spec fn decode_entities(s: Seq<char>) -> Seq<char> {
    replace_all(
        replace_all(
            replace_all(
                replace_all(replace_all(s, "&amp;"@, "&"@), "&quot;"@, "\""@),
                "&#39;"@,
                "'"@,
            ),
            "&lt;"@,
            "<"@,
        ),
        "&gt;"@,
        ">"@,
    )
}

/// Keepa text made plain: tags dropped, entities decoded, whitespace runs collapsed to single
/// spaces and trimmed.
pub open spec fn clean_keepa_spec(v: Seq<char>) -> Seq<char> {
    join(words(decode_entities(strip_tags_from(v, false))), " "@)
}

fn strip_tags(s: &[char]) -> (r: Vec<char>)
    ensures
        r@ == strip_tags_from(s@, false),
{
    let mut out: Vec<char> = Vec::new();
    let mut inside = false;
    let mut i: usize = 0;
    let n = s.len();
    assert(s@.skip(0) =~= s@);
    while i < n
        invariant
            n == s@.len(),
            i <= n,
            out@ + strip_tags_from(s@.skip(i as int), inside) == strip_tags_from(s@, false),
        decreases n - i,
    {
        let ghost rest = s@.skip(i as int);
        assert(rest.drop_first() =~= s@.skip(i + 1));
        let c = s[i];
        if c == '<' {
            inside = true;
        } else if c == '>' {
            inside = false;
        } else if !inside {
            let ghost before = out@;
            out.push(c);
            assert(out@ + strip_tags_from(s@.skip(i + 1), inside) =~= before + (seq![c]
                + strip_tags_from(rest.drop_first(), inside)));
        }
        i = i + 1;
    }
    assert(out@ + strip_tags_from(s@.skip(n as int), inside) =~= out@);
    out
}

fn replace_text(s: &[char], pat: &str, rep: &str) -> (r: Vec<char>)
    requires
        pat@.len() > 0,
    ensures
        r@ == replace_all(s@, pat@, rep@),
{
    let p = chars_of(pat);
    let q = chars_of(rep);
    replace_chars(s, p.as_slice(), q.as_slice())
}

/// Cleans a text from Keepa: drops HTML tags, decodes `&amp;`, `&quot;`, `&#39;`, `&lt;` and
/// `&gt;` in that order, and joins the whitespace-separated words with single spaces.
pub fn clean_keepa_text(value: &str) -> (r: String)
    ensures
        r@ == clean_keepa_spec(value@),
{
    proof {
        reveal_strlit("&amp;");
        reveal_strlit("&quot;");
        reveal_strlit("&#39;");
        reveal_strlit("&lt;");
        reveal_strlit("&gt;");
    }
    let v = chars_of(value);
    let t = strip_tags(v.as_slice());
    let t = replace_text(t.as_slice(), "&amp;", "&");
    let t = replace_text(t.as_slice(), "&quot;", "\"");
    let t = replace_text(t.as_slice(), "&#39;", "'");
    let t = replace_text(t.as_slice(), "&lt;", "<");
    let t = replace_text(t.as_slice(), "&gt;", ">");
    let ws = split_words(t.as_slice());
    let space = chars_of(" ");
    let joined = join_char_vecs(&ws, space.as_slice());
    string_of(joined.as_slice())
}


/// Keepa refused the request (an `error` member in its reply).
pub const KEEPA_REFUSED: &'static str = "Keepa 拒绝了商品请求，请检查额度或订阅权限。";

/// Keepa's reply held no product.
pub const KEEPA_NOT_FOUND: &'static str = "Keepa 没有找到这个 ASIN。";

/// The product has no usable title.
pub const KEEPA_NO_TITLE: &'static str = "Keepa 暂无该商品的标题数据。";

/// Keepa could not be reached.
pub const KEEPA_UNREACHABLE: &'static str = "无法连接 Keepa，请稍后重试。";

/// Keepa's reply could not be decoded.
pub const KEEPA_UNREADABLE: &'static str = "Keepa 返回了无法解析的数据。";

/// No Keepa API key is configured.
pub const KEEPA_KEY_MISSING: &'static str = "尚未配置 Keepa API Key，请检查 keepa_key.json。";

/// Keepa serves no such marketplace.
pub const KEEPA_MARKETPLACE_UNSUPPORTED: &'static str = "Keepa 暂不支持该 Amazon 站点。";

/// How long a cached product stays fresh, in nanoseconds (six hours).
pub const KEEPA_CACHE_TTL_NANOS: u128 = 21_600_000_000_000;

/// An image of a Keepa product: the file names of its large and medium renditions.
pub struct KeepaImage {
    pub large: Option<String>,
    pub medium: Option<String>,
}

/// A product as Keepa describes it.
pub struct KeepaProduct {
    pub asin: String,
    pub title: Option<String>,
    pub features: Option<Vec<String>>,
    pub images: Option<Vec<KeepaImage>>,
}

/// What the mapping reads of a Keepa reply: its products, and whether it carried an `error`.
pub struct KeepaResponse {
    pub products: Option<Vec<KeepaProduct>>,
    pub has_error: bool,
}

/// The first product of a Keepa reply.
pub open spec fn first_keepa_product(r: KeepaResponse) -> Option<KeepaProduct> {
    match r.products {
        Some(ps) => if ps@.len() > 0 {
            Some(ps@[0])
        } else {
            None
        },
        None => None,
    }
}

/// Why a Keepa reply yields no product, if it does not: its message.
pub open spec fn keepa_failure(r: KeepaResponse) -> Option<Seq<char>> {
    if r.has_error {
        Some(KEEPA_REFUSED@)
    } else {
        match first_keepa_product(r) {
            None => Some(KEEPA_NOT_FOUND@),
            Some(p) => match p.title {
                None => Some(KEEPA_NO_TITLE@),
                Some(t) => if clean_keepa_spec(t@).len() == 0 {
                    Some(KEEPA_NO_TITLE@)
                } else {
                    None
                },
            },
        }
    }
}

/// The cleaned features, in order, with those that clean to nothing left out.
pub open spec fn cleaned_features(fs: Seq<Seq<char>>) -> Seq<Seq<char>>
    decreases fs.len(),
{
    if fs.len() == 0 {
        seq![]
    } else {
        let rest = cleaned_features(fs.drop_last());
        let c = clean_keepa_spec(fs.last());
        if c.len() > 0 {
            rest.push(c)
        } else {
            rest
        }
    }
}

/// The bullet points of a product: at most the first five non-empty cleaned features.
pub open spec fn keepa_bullets(features: Option<Vec<String>>) -> Seq<Seq<char>> {
    match features {
        Some(fs) => take_upto(cleaned_features(strings_view(fs@)), 5),
        None => seq![],
    }
}

/// The first image name: of the first image with a large or medium rendition, the large one
/// if present, else the medium one.
pub open spec fn first_image_name(imgs: Seq<KeepaImage>) -> Option<Seq<char>>
    decreases imgs.len(),
{
    if imgs.len() == 0 {
        None
    } else {
        match imgs[0].large {
            Some(l) => Some(l@),
            None => match imgs[0].medium {
                Some(m) => Some(m@),
                None => first_image_name(imgs.drop_first()),
            },
        }
    }
}

/// The main image URL: empty without an image name, else the Amazon media URL of the name.
pub open spec fn main_image_url_spec(images: Option<Vec<KeepaImage>>) -> Seq<char> {
    let name = match images {
        Some(v) => match first_image_name(v@) {
            Some(n) => n,
            None => seq![],
        },
        None => seq![],
    };
    if name.len() == 0 {
        seq![]
    } else {
        "https://m.media-amazon.com/images/I/"@ + name
    }
}

/// The Amazon page of a product.
pub open spec fn source_url_spec(marketplace: Seq<char>, asin: Seq<char>) -> Seq<char> {
    "https://www.amazon."@ + marketplace + "/dp/"@ + asin
}

fn bullets_of(features: &Option<Vec<String>>) -> (r: Vec<String>)
    ensures
        strings_view(r@) == keepa_bullets(*features),
{
    match features {
        None => {
            let r: Vec<String> = Vec::new();
            assert(strings_view(r@) =~= Seq::<Seq<char>>::empty());
            r
        },
        Some(fs) => {
            let mut all: Vec<String> = Vec::new();
            let mut i: usize = 0;
            assert(strings_view(fs@).take(0) =~= Seq::<Seq<char>>::empty());
            assert(strings_view(all@) =~= Seq::<Seq<char>>::empty());
            while i < fs.len()
                invariant
                    i <= fs@.len(),
                    strings_view(all@) == cleaned_features(strings_view(fs@).take(i as int)),
                decreases fs.len() - i,
            {
                let c = clean_keepa_text(fs[i].as_str());
                let ghost before = all@;
                assert(strings_view(fs@).take(i + 1).drop_last() =~= strings_view(fs@).take(
                    i as int,
                ));
                let ghost cv = c@;
                if !c.as_str().is_empty() {
                    all.push(c);
                    assert(strings_view(all@) =~= strings_view(before).push(cv));
                }
                i = i + 1;
            }
            assert(strings_view(fs@).take(fs@.len() as int) =~= strings_view(fs@));
            let mut r: Vec<String> = Vec::new();
            let mut j: usize = 0;
            let stop = if all.len() <= 5 { all.len() } else { 5 };
            while j < stop
                invariant
                    stop <= all@.len(),
                    j <= stop,
                    stop == (if all@.len() <= 5 { all@.len() } else { 5 }),
                    strings_view(r@) == strings_view(all@).take(j as int),
                decreases stop - j,
            {
                let ghost before = r@;
                let item = all[j].clone();
                assert(item@ == all@[j as int]@);
                r.push(item);
                assert(strings_view(r@) =~= strings_view(before).push(all@[j as int]@));
                j = j + 1;
                assert(strings_view(r@) =~= strings_view(all@).take(j as int));
            }
            assert(strings_view(all@).take(stop as int) =~= take_upto(strings_view(all@), 5));
            r
        },
    }
}

fn image_name_of(images: &Option<Vec<KeepaImage>>) -> (r: Option<String>)
    ensures
        match images {
            Some(v) => r matches Some(n) ==> first_image_name(v@) == Some(n@),
            None => r is None,
        },
        match images {
            Some(v) => r is None <==> first_image_name(v@) is None,
            None => true,
        },
{
    match images {
        None => None,
        Some(v) => {
            let mut i: usize = 0;
            assert(v@.skip(0) =~= v@);
            while i < v.len()
                invariant
                    *images == Some(*v),
                    i <= v@.len(),
                    first_image_name(v@) == first_image_name(v@.skip(i as int)),
                decreases v.len() - i,
            {
                assert(v@.skip(i as int).drop_first() =~= v@.skip(i + 1));
                assert(v@.skip(i as int)[0] == v@[i as int]);
                let ghost img = v@[i as int];
                match &v[i].large {
                    Some(l) => {
                        assert(img.large == Some(*l));
                        let name = l.clone();
                        assert(name@ == l@);
                        assert(first_image_name(v@.skip(i as int)) == Some(name@));
                        return Some(name);
                    },
                    None => {},
                }
                match &v[i].medium {
                    Some(m) => {
                        let name = m.clone();
                        assert(name@ == m@);
                        assert(img.medium == Some(*m));
                        assert(first_image_name(v@.skip(i as int)) == Some(name@));
                        return Some(name);
                    },
                    None => {},
                }
                i = i + 1;
            }
            None
        },
    }
}

/// The Amazon page of a product: `https://www.amazon.{marketplace}/dp/{asin}`.
pub fn source_url(marketplace: &str, asin: &str) -> (r: String)
    ensures
        r@ == source_url_spec(marketplace@, asin@),
{
    let mut r = String::from_str("https://www.amazon.");
    r.append(marketplace);
    r.append("/dp/");
    r.append(asin);
    r
}

/// Maps a Keepa reply to the normalized product for `asin` in `marketplace`: an error when
/// Keepa refused the request, found no product, or gave no title that cleans to a non-empty
/// text; otherwise the product with its cleaned title, at most five cleaned bullet points, and
/// the URL of its first image.
pub fn product_from_keepa(payload: &KeepaResponse, asin: &str, marketplace: &str) -> (r: Result<
    Product,
    ApiError,
>)
    ensures
        r is Err <==> keepa_failure(*payload) is Some,
        r matches Err(e) ==> e.status == BAD_GATEWAY && keepa_failure(*payload) == Some(e.message@),
        r matches Ok(p) ==> {
            let kp = first_keepa_product(*payload).unwrap();
            &&& p.asin@ == kp.asin@
            &&& p.marketplace@ == marketplace@
            &&& p.source_url@ == source_url_spec(marketplace@, asin@)
            &&& p.title@ == clean_keepa_spec(kp.title.unwrap()@)
            &&& strings_view(p.bullet_points@) == keepa_bullets(kp.features)
            &&& p.main_image_url@ == main_image_url_spec(kp.images)
        },
{
    if payload.has_error {
        return Err(ApiError::bad_gateway(String::from_str(KEEPA_REFUSED)));
    }
    let kp = match &payload.products {
        Some(ps) => {
            if ps.len() == 0 {
                return Err(ApiError::bad_gateway(String::from_str(KEEPA_NOT_FOUND)));
            }
            &ps[0]
        },
        None => {
            return Err(ApiError::bad_gateway(String::from_str(KEEPA_NOT_FOUND)));
        },
    };
    let title = match &kp.title {
        Some(t) => clean_keepa_text(t.as_str()),
        None => {
            return Err(ApiError::bad_gateway(String::from_str(KEEPA_NO_TITLE)));
        },
    };
    if title.as_str().is_empty() {
        return Err(ApiError::bad_gateway(String::from_str(KEEPA_NO_TITLE)));
    }
    let bullet_points = bullets_of(&kp.features);
    let main_image_url = match image_name_of(&kp.images) {
        Some(name) => {
            if name.as_str().is_empty() {
                String::new()
            } else {
                let mut u = String::from_str("https://m.media-amazon.com/images/I/");
                u.append(name.as_str());
                u
            }
        },
        None => String::new(),
    };
    Ok(
        Product {
            asin: kp.asin.clone(),
            marketplace: String::from_str(marketplace),
            source_url: source_url(marketplace, asin),
            title,
            main_image_url,
            bullet_points,
        },
    )
}

/// The cache key of a product: `{marketplace}:{asin}`.
pub fn keepa_cache_key(marketplace: &str, asin: &str) -> (r: String)
    ensures
        r@ == marketplace@ + ":"@ + asin@,
{
    let mut r = String::from_str(marketplace);
    r.append(":");
    r.append(asin);
    r
}

/// Cache keys tell products apart: for marketplaces without a colon, equal keys mean the same
/// marketplace and the same ASIN.
pub proof fn cache_keys_identify_products(m1: Seq<char>, a1: Seq<char>, m2: Seq<char>, a2: Seq<char>)
    requires
        forall|i: int| 0 <= i < m1.len() ==> #[trigger] m1[i] != ':',
        forall|i: int| 0 <= i < m2.len() ==> #[trigger] m2[i] != ':',
        m1 + ":"@ + a1 == m2 + ":"@ + a2,
    ensures
        m1 == m2,
        a1 == a2,
{
    reveal_strlit(":");
    let k1 = m1 + ":"@ + a1;
    let k2 = m2 + ":"@ + a2;
    if m1.len() < m2.len() {
        assert(k1[m1.len() as int] == ':');
        assert(k2[m1.len() as int] == m2[m1.len() as int]);
    } else if m2.len() < m1.len() {
        assert(k2[m2.len() as int] == ':');
        assert(k1[m2.len() as int] == m1[m2.len() as int]);
    }
    assert(m1 =~= k1.take(m1.len() as int));
    assert(m2 =~= k2.take(m2.len() as int));
    assert(a1 =~= k1.skip(m1.len() as int + 1));
    assert(a2 =~= k2.skip(m2.len() as int + 1));
}

/// A product fetched at `fetched_at` is still served at `now` (both in nanoseconds on one
/// monotonic clock): less than six hours lie between them, a clock reading before the fetch
/// counting as no time (as std's `Instant::elapsed` saturates).
pub open spec fn cache_fresh_spec(fetched_at: u128, now: u128) -> bool {
    (if now >= fetched_at {
        now - fetched_at
    } else {
        0
    }) < KEEPA_CACHE_TTL_NANOS
}

/// Whether a product fetched at `fetched_at` is still served at `now`.
pub fn keepa_cache_is_fresh(fetched_at: u128, now: u128) -> (b: bool)
    ensures
        b == cache_fresh_spec(fetched_at, now),
{
    let elapsed = if now >= fetched_at {
        now - fetched_at
    } else {
        0
    };
    elapsed < KEEPA_CACHE_TTL_NANOS
}

/// A cached product: its cache key, when it was fetched (nanoseconds on the service's
/// monotonic clock), and the product.
pub struct CachedProduct {
    pub key: String,
    pub fetched_at: u128,
    pub product: Product,
}

/// The product cache: entries in the order they were first stored.
pub struct ProductCache {
    pub entries: Vec<CachedProduct>,
}

/// The first position, from `i` on, of the entry for `key`.
pub open spec fn cache_index_from(entries: Seq<CachedProduct>, key: Seq<char>, i: int) -> Option<
    int,
>
    decreases entries.len() - i,
{
    if i < 0 || i >= entries.len() {
        None
    } else if entries[i].key@ == key {
        Some(i)
    } else {
        cache_index_from(entries, key, i + 1)
    }
}

/// No key occurs in two entries.
pub open spec fn keys_unique(entries: Seq<CachedProduct>) -> bool {
    forall|i: int, j: int|
        0 <= i < j < entries.len() ==> (#[trigger] entries[i]).key@ != (#[trigger] entries[j]).key@
}

/// The entry for `key`.
pub open spec fn cache_entry(entries: Seq<CachedProduct>, key: Seq<char>) -> Option<CachedProduct> {
    match cache_index_from(entries, key, 0) {
        Some(i) => Some(entries[i]),
        None => None,
    }
}

/// What a lookup of `key` at `now` serves: the stored product while it is fresh.
pub open spec fn cache_lookup_spec(entries: Seq<CachedProduct>, key: Seq<char>, now: u128) -> Option<
    Product,
> {
    match cache_entry(entries, key) {
        Some(e) => if cache_fresh_spec(e.fetched_at, now) {
            Some(e.product)
        } else {
            None
        },
        None => None,
    }
}

/// The entries after storing `product` under `key` at `now`: the entry for the key replaced,
/// or a new entry at the end.
pub open spec fn cache_store_spec(
    entries: Seq<CachedProduct>,
    key: String,
    product: Product,
    now: u128,
) -> Seq<CachedProduct> {
    let e = CachedProduct { key, fetched_at: now, product };
    match cache_index_from(entries, key@, 0) {
        Some(i) => entries.update(i, e),
        None => entries.push(e),
    }
}

proof fn lemma_cache_index(entries: Seq<CachedProduct>, key: Seq<char>, i: int)
    requires
        0 <= i,
    ensures
        cache_index_from(entries, key, i) matches Some(j) ==> i <= j < entries.len()
            && entries[j].key@ == key && forall|p: int| i <= p < j ==> (#[trigger] entries[p]).key@
            != key,
        cache_index_from(entries, key, i) is None ==> forall|p: int|
            i <= p < entries.len() ==> (#[trigger] entries[p]).key@ != key,
    decreases entries.len() - i,
{
    if i < entries.len() && entries[i].key@ != key {
        lemma_cache_index(entries, key, i + 1);
    }
}

proof fn lemma_cache_index_same(a: Seq<CachedProduct>, b: Seq<CachedProduct>, key: Seq<char>, i: int)
    requires
        0 <= i,
        a.len() <= b.len(),
        forall|p: int| 0 <= p < a.len() ==> ((#[trigger] a[p]).key@ == key <==> b[p].key@ == key),
        forall|p: int| a.len() <= p < b.len() ==> (#[trigger] b[p]).key@ != key,
    ensures
        cache_index_from(a, key, i) == cache_index_from(b, key, i),
    decreases b.len() - i,
{
    if i < b.len() {
        if i < a.len() {
            assert(a[i].key@ == key <==> b[i].key@ == key);
        }
        lemma_cache_index_same(a, b, key, i + 1);
    }
}

/// A stored product is served by a lookup of its key while it is fresh.
pub proof fn stored_product_is_served(
    entries: Seq<CachedProduct>,
    key: String,
    product: Product,
    now: u128,
    later: u128,
)
    requires
        cache_fresh_spec(now, later),
    ensures
        cache_lookup_spec(cache_store_spec(entries, key, product, now), key@, later) == Some(product),
{
    let after = cache_store_spec(entries, key, product, now);
    lemma_cache_index(entries, key@, 0);
    match cache_index_from(entries, key@, 0) {
        Some(i) => {
            lemma_cache_index_same(entries.take(i), after.take(i), key@, 0);
            assert forall|p: int| 0 <= p < i implies (#[trigger] after[p]).key@ != key@ by {
                assert(after[p] == entries[p]);
            }
            lemma_cache_index(after, key@, 0);
            if cache_index_from(after, key@, 0) != Some(i) {
                assert(after[i].key@ == key@);
            }
        },
        None => {
            lemma_cache_index(after, key@, 0);
            if cache_index_from(after, key@, 0) != Some(entries.len() as int) {
                assert(after[entries.len() as int].key@ == key@);
                assert forall|p: int| 0 <= p < entries.len() implies (#[trigger] after[p]).key@
                    != key@ by {
                    assert(after[p] == entries[p]);
                }
            }
        },
    }
}

/// Storing a product under one key leaves what every other key serves unchanged.
pub proof fn store_keeps_other_products(
    entries: Seq<CachedProduct>,
    key: String,
    product: Product,
    now: u128,
    other: Seq<char>,
    later: u128,
)
    requires
        other != key@,
    ensures
        cache_lookup_spec(cache_store_spec(entries, key, product, now), other, later)
            == cache_lookup_spec(entries, other, later),
{
    let after = cache_store_spec(entries, key, product, now);
    lemma_cache_index(entries, key@, 0);
    assert forall|p: int| 0 <= p < entries.len() implies ((#[trigger] entries[p]).key@ == other
        <==> after[p].key@ == other) by {
        if after[p] != entries[p] {
            assert(after[p].key@ == key@);
        }
    }
    assert forall|p: int| entries.len() <= p < after.len() implies (#[trigger] after[p]).key@
        != other by {
        assert(after[p].key@ == key@);
    }
    lemma_cache_index_same(entries, after, other, 0);
    lemma_cache_index(entries, other, 0);
    if let Some(j) = cache_index_from(entries, other, 0) {
        assert(after[j] == entries[j]);
    }
}

impl ProductCache {
    /// An empty cache.
    pub fn new() -> (c: Self)
        ensures
            c.entries@.len() == 0,
            keys_unique(c.entries@),
    {
        ProductCache { entries: Vec::new() }
    }

    fn index_of(&self, key: &str) -> (r: Option<usize>)
        ensures
            r matches Some(i) ==> cache_index_from(self.entries@, key@, 0) == Some(i as int)
                && i < self.entries@.len(),
            r is None ==> cache_index_from(self.entries@, key@, 0) is None,
    {
        let mut i: usize = 0;
        while i < self.entries.len()
            invariant
                i <= self.entries@.len(),
                cache_index_from(self.entries@, key@, 0) == cache_index_from(
                    self.entries@,
                    key@,
                    i as int,
                ),
            decreases self.entries.len() - i,
        {
            if text_eq(self.entries[i].key.as_str(), key) {
                return Some(i);
            }
            i = i + 1;
        }
        None
    }

    /// The product stored under `key`, if it is still fresh at `now`.
    pub fn lookup(&self, key: &str, now: u128) -> (r: Option<Product>)
        ensures
            match cache_lookup_spec(self.entries@, key@, now) {
                Some(p) => r matches Some(q) && product_view(q) == product_view(p),
                None => r is None,
            },
    {
        match self.index_of(key) {
            Some(i) => {
                let e = &self.entries[i];
                if keepa_cache_is_fresh(e.fetched_at, now) {
                    Some(e.product.duplicate())
                } else {
                    None
                }
            },
            None => None,
        }
    }

    /// Stores a fetched product under `key`, fetched at `now`, replacing an earlier entry for
    /// the key.
    pub fn store(&mut self, key: String, product: Product, now: u128)
        ensures
            final(self).entries@ == cache_store_spec(old(self).entries@, key, product, now),
            keys_unique(old(self).entries@) ==> keys_unique(final(self).entries@),
    {
        let found = self.index_of(key.as_str());
        proof {
            lemma_cache_index(self.entries@, key@, 0);
        }
        let e = CachedProduct { key, fetched_at: now, product };
        match found {
            Some(i) => {
                let ghost before = self.entries@;
                self.entries.set(i, e);
                assert forall|p: int| 0 <= p < self.entries@.len() implies (
                #[trigger] self.entries@[p]).key@ == before[p].key@ by {
                    if p != i {
                        assert(self.entries@[p] == before[p]);
                    }
                }
            },
            None => {
                let ghost before = self.entries@;
                self.entries.push(e);
                assert forall|p: int| 0 <= p < before.len() implies (
                #[trigger] self.entries@[p]).key@ == before[p].key@ by {
                    assert(self.entries@[p] == before[p]);
                }
            },
        }
    }
}

/// The message for a Keepa reply with an unsuccessful HTTP status.
pub open spec fn keepa_status_message(status: u16) -> Seq<char> {
    "Keepa 请求失败（"@ + decimal(status as nat) + "）。"@
}

/// The error for Keepa's HTTP status: none for a success status (200 to 299), else a 502
/// error that names the status.
pub fn keepa_status_error(status: u16) -> (r: Option<ApiError>)
    ensures
        r is None <==> 200 <= status <= 299,
        r matches Some(e) ==> e.status == BAD_GATEWAY && e.message@ == keepa_status_message(status),
{
    if 200 <= status && status <= 299 {
        return None;
    }
    let mut m = String::from_str("Keepa 请求失败（");
    let digits = decimal_chars(status);
    let d = string_of(digits.as_slice());
    m.append(d.as_str());
    m.append("）。");
    Some(ApiError::bad_gateway(m))
}

/// Checks what a Keepa request needs before it is sent: a configured API key (else a 503
/// error) and a marketplace that Keepa serves (else a 400 error); gives the Keepa domain id.
pub fn keepa_request_domain(api_key: Option<&str>, marketplace: &str) -> (r: Result<
    &'static str,
    ApiError,
>)
    ensures
        api_key is None ==> (r matches Err(e) && e.status == SERVICE_UNAVAILABLE && e.message@
            == KEEPA_KEY_MISSING@),
        api_key is Some && keepa_domain_spec(marketplace@) is None ==> (r matches Err(e)
            && e.status == BAD_REQUEST && e.message@ == KEEPA_MARKETPLACE_UNSUPPORTED@),
        api_key is Some && keepa_domain_spec(marketplace@) is Some ==> (r matches Ok(d) && Some(
            d@,
        ) == keepa_domain_spec(marketplace@)),
{
    if api_key.is_none() {
        return Err(ApiError::service_unavailable(String::from_str(KEEPA_KEY_MISSING)));
    }
    match keepa_domain_id(marketplace) {
        Some(d) => Ok(d),
        None => Err(ApiError::bad_request(String::from_str(KEEPA_MARKETPLACE_UNSUPPORTED))),
    }
}

/// The query parameters of a Keepa product request, in order: the key, the domain id, the
/// ASIN, and no history and no statistics.
pub fn keepa_query(key: &str, domain_id: &str, asin: &str) -> (r: Vec<(String, String)>)
    ensures
        r@.len() == 5,
        r@[0].0@ == "key"@ && r@[0].1@ == key@,
        r@[1].0@ == "domain"@ && r@[1].1@ == domain_id@,
        r@[2].0@ == "asin"@ && r@[2].1@ == asin@,
        r@[3].0@ == "history"@ && r@[3].1@ == "0"@,
        r@[4].0@ == "stats"@ && r@[4].1@ == "0"@,
{
    let mut r: Vec<(String, String)> = Vec::new();
    r.push((String::from_str("key"), String::from_str(key)));
    r.push((String::from_str("domain"), String::from_str(domain_id)));
    r.push((String::from_str("asin"), String::from_str(asin)));
    r.push((String::from_str("history"), String::from_str("0")));
    r.push((String::from_str("stats"), String::from_str("0")));
    r
}

proof fn lemma_cleaned_features(fs: Seq<Seq<char>>)
    ensures
        forall|k: int|
            0 <= k < cleaned_features(fs).len() ==> (#[trigger] cleaned_features(fs)[k]).len() > 0
                && is_whitespace_normal(cleaned_features(fs)[k]),
    decreases fs.len(),
{
    if fs.len() > 0 {
        lemma_cleaned_features(fs.drop_last());
        clean_keepa_text_is_whitespace_normal(fs.last());
        let rest = cleaned_features(fs.drop_last());
        let c = clean_keepa_spec(fs.last());
        if c.len() > 0 {
            assert forall|k: int| 0 <= k < rest.push(c).len() implies (#[trigger] rest.push(c)[k]).len()
                > 0 && is_whitespace_normal(rest.push(c)[k]) by {
                if k < rest.len() {
                    assert(rest.push(c)[k] == rest[k]);
                }
            }
        }
    }
}

/// A product's bullet points are at most five, each non-empty and whitespace-normal.
pub proof fn keepa_bullets_are_few_and_clean(features: Option<Vec<String>>)
    ensures
        keepa_bullets(features).len() <= 5,
        forall|k: int|
            0 <= k < keepa_bullets(features).len() ==> (#[trigger] keepa_bullets(features)[k]).len()
                > 0 && is_whitespace_normal(keepa_bullets(features)[k]),
{
    if let Some(fs) = features {
        let all = cleaned_features(strings_view(fs@));
        lemma_cleaned_features(strings_view(fs@));
        assert forall|k: int| 0 <= k < keepa_bullets(features).len() implies (
        #[trigger] keepa_bullets(features)[k]).len() > 0 && is_whitespace_normal(
            keepa_bullets(features)[k],
        ) by {
            assert(keepa_bullets(features)[k] == all[k]);
        }
    }
}

/// A product mapped from Keepa has a non-empty, whitespace-normal title.
pub proof fn keepa_product_title_is_clean(payload: KeepaResponse)
    requires
        keepa_failure(payload) is None,
    ensures
        ({
            let t = clean_keepa_spec(first_keepa_product(payload).unwrap().title.unwrap()@);
            t.len() > 0 && is_whitespace_normal(t)
        }),
{
    clean_keepa_text_is_whitespace_normal(first_keepa_product(payload).unwrap().title.unwrap()@);
}

/// Cleaned Keepa text never starts or ends with whitespace, and holds whitespace only as
/// single spaces between words.
pub proof fn clean_keepa_text_is_whitespace_normal(v: Seq<char>)
    ensures
        is_whitespace_normal(clean_keepa_spec(v)),
{
    lemma_joined_words_normal(decode_entities(strip_tags_from(v, false)));
}

} // verus!
