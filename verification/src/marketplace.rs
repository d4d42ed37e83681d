//! Marketplaces and the normalization of a product input (an Amazon link or an ASIN).

use vstd::prelude::*;
use crate::error::{ApiError, BAD_REQUEST, INVALID_PRODUCT_INPUT};
use crate::text::{
    ascii_upper_chars, ascii_upper_text, chars_eq, chars_of, contains_spec, find_chars, find_spec,
    is_ascii_alnum, ascii_upper, lemma_find_from_found, lemma_utf8_len_ascii, lemma_utf8_len_bound,
    occurs_at, string_of, sub_chars, take_upto, text_eq, to_lowercase_text, trim_bounds,
    trim_spec, unicode_lowercase, trim_start_spec, trim_end_spec, is_ascii_text, ascii_lower,
    ascii_lower_text, lemma_ascii_lower_idempotent, utf8_len, utf8_len_prefix, utf8_width_exec,
};

verus! {

/// The Keepa domain id of a marketplace, for the marketplaces that Keepa serves.
pub open spec fn keepa_domain_spec(m: Seq<char>) -> Option<Seq<char>> {
    if m == "com"@ {
        Some("1"@)
    } else if m == "co.uk"@ {
        Some("2"@)
    } else if m == "de"@ {
        Some("3"@)
    } else if m == "fr"@ {
        Some("4"@)
    } else if m == "co.jp"@ {
        Some("5"@)
    } else if m == "ca"@ {
        Some("6"@)
    } else if m == "it"@ {
        Some("8"@)
    } else if m == "es"@ {
        Some("9"@)
    } else if m == "com.mx"@ {
        Some("11"@)
    } else {
        None
    }
}

/// The Keepa domain id of a marketplace, or `None` where Keepa has none.
pub fn keepa_domain_id(marketplace: &str) -> (r: Option<&'static str>)
    ensures
        r matches Some(d) ==> keepa_domain_spec(marketplace@) == Some(d@),
        r is None ==> keepa_domain_spec(marketplace@) is None,
{
    if text_eq(marketplace, "com") {
        Some("1")
    } else if text_eq(marketplace, "co.uk") {
        Some("2")
    } else if text_eq(marketplace, "de") {
        Some("3")
    } else if text_eq(marketplace, "fr") {
        Some("4")
    } else if text_eq(marketplace, "co.jp") {
        Some("5")
    } else if text_eq(marketplace, "ca") {
        Some("6")
    } else if text_eq(marketplace, "it") {
        Some("8")
    } else if text_eq(marketplace, "es") {
        Some("9")
    } else if text_eq(marketplace, "com.mx") {
        Some("11")
    } else {
        None
    }
}

/// The marketplaces that a pasted Amazon link may select.
pub open spec fn is_link_domain(d: Seq<char>) -> bool {
    ||| d == "com"@
    ||| d == "co.uk"@
    ||| d == "de"@
    ||| d == "es"@
    ||| d == "fr"@
    ||| d == "it"@
    ||| d == "co.jp"@
    ||| d == "ca"@
    ||| d == "com.mx"@
}

fn chars_are(cs: &[char], t: &str) -> (r: bool)
    ensures
        r == (cs@ == t@),
{
    let tc = chars_of(t);
    chars_eq(cs, tc.as_slice())
}

fn is_link_domain_exec(d: &[char]) -> (r: bool)
    ensures
        r == is_link_domain(d@),
{
    chars_are(d, "com") || chars_are(d, "co.uk") || chars_are(d, "de") || chars_are(d, "es")
        || chars_are(d, "fr") || chars_are(d, "it") || chars_are(d, "co.jp") || chars_are(d, "ca")
        || chars_are(d, "com.mx")
}

/// The part of `s` before its first `/` (what `split('/').next()` yields).
pub open spec fn before_slash(s: Seq<char>) -> Seq<char> {
    match find_spec(s, "/"@) {
        Some(i) => s.take(i),
        None => s,
    }
}

/// The host suffix after the first `amazon.` in the lowercased input, up to the next `/`.
pub open spec fn link_host_domain(lower: Seq<char>) -> Option<Seq<char>> {
    match find_spec(lower, "amazon."@) {
        Some(h) => Some(before_slash(lower.skip(h + "amazon."@.len()))),
        None => None,
    }
}

/// The marketplace of a request: the link's own marketplace where the input is an Amazon
/// link to a supported marketplace, else the lowercased fallback.
pub open spec fn chosen_marketplace(lower: Seq<char>, fallback_lower: Seq<char>) -> Seq<char> {
    match link_host_domain(lower) {
        Some(d) => if is_link_domain(d) {
            d
        } else {
            fallback_lower
        },
        None => fallback_lower,
    }
}

/// Where the product path of an Amazon link starts, and the length of its marker:
/// the first `/dp/`, else the first `/gp/product/`.
pub open spec fn path_marker(lower: Seq<char>) -> Option<(int, int)> {
    match find_spec(lower, "/dp/"@) {
        Some(i) => Some((i, 4)),
        None => match find_spec(lower, "/gp/product/"@) {
            Some(i) => Some((i, 12)),
            None => None,
        },
    }
}

/// Scanning `t` from character `q` on, the character index at which `k` bytes of its
/// UTF-8 encoding lie before; `None` where byte `k` falls inside a character or past the end.
pub open spec fn byte_boundary_from(t: Seq<char>, k: int, q: int) -> Option<int>
    decreases t.len() - q,
{
    if q < 0 || q > t.len() {
        None
    } else if utf8_len(t.take(q)) == k {
        Some(q)
    } else if utf8_len(t.take(q)) > k || q == t.len() {
        None
    } else {
        byte_boundary_from(t, k, q + 1)
    }
}

/// The ASIN candidate of a trimmed input `t` whose lowercase form is `lower`: the uppercased
/// input, or for an Amazon link with a product path the uppercased ten characters that follow
/// the path marker. The marker is located in `lower` and its byte offset applied to `t`;
/// `None` where that offset is no character boundary of `t` (there std's slicing panics).
pub open spec fn asin_candidate(t: Seq<char>, lower: Seq<char>) -> Option<Seq<char>> {
    if contains_spec(lower, "amazon."@) {
        match path_marker(lower) {
            Some((i, n)) => match byte_boundary_from(t, utf8_len(lower.take(i)) + n, 0) {
                Some(q) => Some(ascii_upper_text(take_upto(t.skip(q), 10))),
                None => None,
            },
            None => Some(ascii_upper_text(t)),
        }
    } else {
        Some(ascii_upper_text(t))
    }
}

/// An accepted ASIN: ASCII letters and digits only, ten bytes long.
pub open spec fn is_valid_asin(a: Seq<char>) -> bool {
    &&& forall|i: int| 0 <= i < a.len() ==> is_ascii_alnum(#[trigger] a[i])
    &&& utf8_len(a) == 10
}

fn byte_boundary_exec(t: &[char], k: u128) -> (r: Option<usize>)
    ensures
        r matches Some(q) ==> byte_boundary_from(t@, k as int, 0) == Some(q as int) && q <= t@.len(),
        r is None ==> byte_boundary_from(t@, k as int, 0) is None,
{
    let mut q: usize = 0;
    let mut acc: u128 = 0;
    while q < t.len() && acc < k
        invariant
            q <= t@.len(),
            acc == utf8_len(t@.take(q as int)),
            acc <= 4 * q,
            byte_boundary_from(t@, k as int, 0) == byte_boundary_from(t@, k as int, q as int),
        decreases t.len() - q,
    {
        let w = utf8_width_exec(t[q]);
        assert(t@.take(q + 1).drop_last() =~= t@.take(q as int));
        acc = acc + w as u128;
        q = q + 1;
    }
    if acc == k {
        Some(q)
    } else {
        None
    }
}

fn asin_candidate_exec(t: &[char], lower: &[char]) -> (r: Option<Vec<char>>)
    ensures
        r matches Some(a) ==> asin_candidate(t@, lower@) == Some(a@),
        r is None ==> asin_candidate(t@, lower@) is None,
{
    let amazon = chars_of("amazon.");
    match find_chars(lower, amazon.as_slice()) {
        None => Some(ascii_upper_chars(t)),
        Some(_) => {
            let dp = chars_of("/dp/");
            let gp = chars_of("/gp/product/");
            let marker = match find_chars(lower, dp.as_slice()) {
                Some(i) => Some((i, 4u128)),
                None => match find_chars(lower, gp.as_slice()) {
                    Some(i) => Some((i, 12u128)),
                    None => None,
                },
            };
            match marker {
                None => Some(ascii_upper_chars(t)),
                Some((i, n)) => {
                    proof {
                        lemma_find_from_found(lower@, "/dp/"@, 0);
                        lemma_find_from_found(lower@, "/gp/product/"@, 0);
                        lemma_utf8_len_bound(lower@.take(i as int));
                    }
                    let k = utf8_len_prefix(lower, i) + n;
                    match byte_boundary_exec(t, k) {
                        None => None,
                        Some(q) => {
                            let end = if t.len() - q <= 10 { t.len() } else { q + 10 };
                            let rest = sub_chars(t, q, end);
                            assert(rest@ =~= take_upto(t@.skip(q as int), 10));
                            Some(ascii_upper_chars(rest.as_slice()))
                        },
                    }
                },
            }
        },
    }
}

fn all_ascii_alnum(a: &[char]) -> (r: bool)
    ensures
        r == (forall|i: int| 0 <= i < a@.len() ==> is_ascii_alnum(#[trigger] a@[i])),
{
    let mut i: usize = 0;
    while i < a.len()
        invariant
            i <= a@.len(),
            forall|j: int| 0 <= j < i ==> is_ascii_alnum(#[trigger] a@[j]),
        decreases a.len() - i,
    {
        let c = a[i];
        if !(('0' <= c && c <= '9') || ('A' <= c && c <= 'Z') || ('a' <= c && c <= 'z')) {
            return false;
        }
        i = i + 1;
    }
    true
}

/// Normalizes a trimmed product input `trimmed` given its lowercase form `lower` and the
/// lowercased fallback marketplace: `Ok((asin, marketplace))` exactly when the ASIN candidate
/// is a valid ASIN, else the 400 error for an invalid input.
pub fn normalize_lowered_input(trimmed: &str, lower: &str, fallback_lower: String) -> (r: Result<
    (String, String),
    ApiError,
>)
    requires
        asin_candidate(trimmed@, lower@) is Some,
    ensures
        r is Ok <==> is_valid_asin(asin_candidate(trimmed@, lower@).unwrap()),
        r matches Ok((asin, market)) ==> asin@ == asin_candidate(trimmed@, lower@).unwrap()
            && market@ == chosen_marketplace(lower@, fallback_lower@),
        r matches Err(e) ==> e.status == BAD_REQUEST && e.message@ == INVALID_PRODUCT_INPUT@,
{
    let tc = chars_of(trimmed);
    let lc = chars_of(lower);
    let mut marketplace = fallback_lower;
    let amazon = chars_of("amazon.");
    if let Some(h) = find_chars(lc.as_slice(), amazon.as_slice()) {
        proof {
            lemma_find_from_found(lc@, amazon@, 0);
            assert(occurs_at(lc@, amazon@, h as int));
        }
        let alen = amazon.len();
        let llen = lc.len();
        assert(h + alen <= llen);
        let suffix = sub_chars(lc.as_slice(), h + alen, llen);
        assert(suffix@ =~= lc@.skip(h + "amazon."@.len()));
        let slash = chars_of("/");
        let domain = match find_chars(suffix.as_slice(), slash.as_slice()) {
            Some(i) => {
                proof {
                    lemma_find_from_found(suffix@, slash@, 0);
                }
                sub_chars(suffix.as_slice(), 0, i)
            },
            None => suffix,
        };
        if is_link_domain_exec(domain.as_slice()) {
            marketplace = string_of(domain.as_slice());
        }
    }
    let asin = asin_candidate_exec(tc.as_slice(), lc.as_slice()).unwrap();
    if !all_ascii_alnum(asin.as_slice()) {
        return Err(ApiError::bad_request(String::from_str(INVALID_PRODUCT_INPUT)));
    }
    proof {
        assert forall|i: int| 0 <= i < asin@.len() implies (asin@[i] as u32) < 0x80 by {
            assert(is_ascii_alnum(asin@[i]));
        }
        lemma_utf8_len_ascii(asin@);
    }
    if asin.len() != 10 {
        return Err(ApiError::bad_request(String::from_str(INVALID_PRODUCT_INPUT)));
    }
    Ok((string_of(asin.as_slice()), marketplace))
}

/// The view of an optional text.
pub open spec fn str_option_view(o: Option<&str>) -> Option<Seq<char>> {
    match o {
        Some(s) => Some(s@),
        None => None,
    }
}

/// The lowercased fallback marketplace: the given one, else `com`.
pub open spec fn fallback_lower_spec(fallback: Option<Seq<char>>) -> Seq<char> {
    match fallback {
        Some(f) => unicode_lowercase(f),
        None => unicode_lowercase("com"@),
    }
}

/// What normalizing a product input gives: `None` where the marker offset is no character
/// boundary (the slicing panics), `Some(None)` for an invalid input, else the ASIN and the
/// marketplace.
pub open spec fn normalize_spec(input: Seq<char>, fallback: Option<Seq<char>>) -> Option<
    Option<(Seq<char>, Seq<char>)>,
> {
    let t = trim_spec(input);
    let lower = unicode_lowercase(t);
    match asin_candidate(t, lower) {
        None => None,
        Some(a) => if is_valid_asin(a) {
            Some(Some((a, chosen_marketplace(lower, fallback_lower_spec(fallback)))))
        } else {
            Some(None)
        },
    }
}

/// Normalizes a product input, an Amazon product link or an ASIN, with an optional fallback
/// marketplace (`com` when absent). `None` exactly where the link's marker offset, taken in the
/// lowercased text, is no character boundary of the trimmed input (std's slicing panics there);
/// otherwise the result of `normalize_lowered_input` on the trimmed input, its lowercase form and
/// the lowercased fallback.
pub fn normalize_product_input(input: &str, fallback_marketplace: Option<&str>) -> (r: Option<
    Result<(String, String), ApiError>,
>)
    ensures
        match normalize_spec(input@, str_option_view(fallback_marketplace)) {
            None => r is None,
            Some(None) => r matches Some(Err(e)) && e.status == BAD_REQUEST && e.message@
                == INVALID_PRODUCT_INPUT@,
            Some(Some((asin, market))) => r matches Some(Ok((x, y))) && x@ == asin && y@ == market,
        },
{
    let ic = chars_of(input);
    let (a, b) = trim_bounds(ic.as_slice());
    let trimmed = input.substring_char(a, b);
    let fallback_lower = match fallback_marketplace {
        Some(f) => to_lowercase_text(f),
        None => to_lowercase_text("com"),
    };
    let lower = to_lowercase_text(trimmed);
    let tc = chars_of(trimmed);
    let lc = chars_of(lower.as_str());
    if asin_candidate_exec(tc.as_slice(), lc.as_slice()).is_none() {
        return None;
    }
    Some(normalize_lowered_input(trimmed, lower.as_str(), fallback_lower))
}

/// An accepted ASIN is ten characters, each an ASCII digit or an uppercase ASCII letter.
pub proof fn accepted_asin_is_ten_uppercase_alphanumerics(t: Seq<char>, lower: Seq<char>)
    requires
        asin_candidate(t, lower) is Some,
        is_valid_asin(asin_candidate(t, lower).unwrap()),
    ensures
        ({
            let a = asin_candidate(t, lower).unwrap();
            &&& a.len() == 10
            &&& forall|i: int|
                0 <= i < a.len() ==> ('0' <= #[trigger] a[i] && a[i] <= '9') || ('A' <= a[i] && a[i]
                    <= 'Z')
        }),
{
    let a = asin_candidate(t, lower).unwrap();
    let x = if contains_spec(lower, "amazon."@) && path_marker(lower) is Some {
        let (i, n) = path_marker(lower).unwrap();
        take_upto(t.skip(byte_boundary_from(t, utf8_len(lower.take(i)) + n, 0).unwrap()), 10)
    } else {
        t
    };
    assert(a == ascii_upper_text(x));
    assert forall|i: int| 0 <= i < a.len() implies ('0' <= #[trigger] a[i] && a[i] <= '9') || ('A'
        <= a[i] && a[i] <= 'Z') by {
        assert(is_ascii_alnum(a[i]));
        assert(a[i] == ascii_upper(x[i]));
    }
    assert forall|i: int| 0 <= i < a.len() implies (a[i] as u32) < 0x80 by {
        assert(is_ascii_alnum(a[i]));
    }
    lemma_utf8_len_ascii(a);
}

/// A pasted link to a supported marketplace selects that marketplace, whatever the fallback.
pub proof fn link_marketplace_takes_priority(lower: Seq<char>, fallback_a: Seq<char>, fallback_b: Seq<
    char,
>)
    requires
        link_host_domain(lower) matches Some(d) && is_link_domain(d),
    ensures
        chosen_marketplace(lower, fallback_a) == link_host_domain(lower).unwrap(),
        chosen_marketplace(lower, fallback_b) == link_host_domain(lower).unwrap(),
{
}

proof fn lemma_link_domain_is_lower_ascii(d: Seq<char>)
    requires
        is_link_domain(d),
    ensures
        is_ascii_text(d),
        unicode_lowercase(d) == d,
{
    reveal_strlit("com");
    reveal_strlit("co.uk");
    reveal_strlit("de");
    reveal_strlit("es");
    reveal_strlit("fr");
    reveal_strlit("it");
    reveal_strlit("co.jp");
    reveal_strlit("ca");
    reveal_strlit("com.mx");
    assert(is_ascii_text(d));
    assert(ascii_lower_text(d) =~= d);
}

/// Normalizing the ASIN and marketplace that normalizing gave yields them again, where the
/// fallback is absent or ASCII.
pub proof fn normalizing_is_idempotent(input: Seq<char>, fallback: Option<Seq<char>>)
    requires
        normalize_spec(input, fallback) matches Some(Some(_)),
        fallback matches Some(f) ==> is_ascii_text(f),
    ensures
        normalize_spec(input, fallback) matches Some(Some((a, m))) && normalize_spec(a, Some(m))
            == Some(Some((a, m))),
{
    let t = trim_spec(input);
    let lower = unicode_lowercase(t);
    let a = asin_candidate(t, lower).unwrap();
    let fbl = fallback_lower_spec(fallback);
    let m = chosen_marketplace(lower, fbl);
    accepted_asin_is_ten_uppercase_alphanumerics(t, lower);
    assert(is_ascii_text(a));
    assert(trim_start_spec(a) == a);
    assert(trim_end_spec(a) == a);
    assert(trim_spec(a) == a);
    let la = unicode_lowercase(a);
    assert(la == ascii_lower_text(a));
    reveal_strlit("amazon.");
    lemma_find_from_found(la, "amazon."@, 0);
    if let Some(j) = find_spec(la, "amazon."@) {
        assert(la.subrange(j, j + 7)[6] == "amazon."@[6]);
        assert(la[j + 6] == ascii_lower(a[j + 6]));
        assert(false);
    }
    assert(ascii_upper_text(a) =~= a);
    assert(asin_candidate(a, la) == Some(a));
    assert(link_host_domain(la) is None);
    // The marketplace is already lowercase.
    if link_host_domain(lower) is Some && is_link_domain(link_host_domain(lower).unwrap()) {
        lemma_link_domain_is_lower_ascii(link_host_domain(lower).unwrap());
    } else {
        assert(m == fbl);
        match fallback {
            Some(f) => {
                lemma_ascii_lower_idempotent(f);
            },
            None => {
                reveal_strlit("com");
                assert(is_ascii_text("com"@));
                lemma_ascii_lower_idempotent("com"@);
            },
        }
    }
    assert(unicode_lowercase(m) == m);
    assert(fallback_lower_spec(Some(m)) == m);
}

/// The marketplace of a normalized request is one Keepa serves, where the fallback is absent
/// (then `com`) or lowercases to a supported marketplace.
pub proof fn normalized_marketplace_is_served(input: Seq<char>, fallback: Option<Seq<char>>)
    requires
        normalize_spec(input, fallback) matches Some(Some(_)),
        fallback matches Some(f) ==> is_link_domain(unicode_lowercase(f)),
    ensures
        normalize_spec(input, fallback) matches Some(Some((a, m))) && keepa_domain_spec(m) is Some,
{
    reveal_strlit("com");
    assert(is_ascii_text("com"@));
    assert(ascii_lower_text("com"@) =~= "com"@);
    assert(is_link_domain(fallback_lower_spec(fallback)));
}

/// Every marketplace that a link may select is one that Keepa serves, and conversely.
pub proof fn link_marketplaces_are_keepa_marketplaces(d: Seq<char>)
    ensures
        is_link_domain(d) <==> keepa_domain_spec(d) is Some,
{
}

} // verus!
