//! Character-level text utilities with exact specifications.

use vstd::prelude::*;

verus! {

/// The Unicode `White_Space` property (std's `char::is_whitespace`): U+0009 to U+000D, U+0020,
/// U+0085, U+00A0, U+1680, U+2000 to U+200A, U+2028, U+2029, U+202F, U+205F and U+3000.
pub open spec fn unicode_white_space(c: char) -> bool {
    let u = c as u32;
    ||| 0x09 <= u && u <= 0x0D
    ||| u == 0x20
    ||| u == 0x85
    ||| u == 0xA0
    ||| u == 0x1680
    ||| 0x2000 <= u && u <= 0x200A
    ||| u == 0x2028
    ||| u == 0x2029
    ||| u == 0x202F
    ||| u == 0x205F
    ||| u == 0x3000
}

/// Whether a character has the Unicode `White_Space` property.
pub fn is_whitespace_char(c: char) -> (b: bool)
    ensures
        b == unicode_white_space(c),
{
    let u = c as u32;
    (0x09 <= u && u <= 0x0D) || u == 0x20 || u == 0x85 || u == 0xA0 || u == 0x1680 || (0x2000 <= u
        && u <= 0x200A) || u == 0x2028 || u == 0x2029 || u == 0x202F || u == 0x205F || u == 0x3000
}

/// What std's `str::to_lowercase` returns for a text that holds a non-ASCII character: its
/// Unicode lowercase mapping.
pub uninterp spec fn unicode_lowercase_non_ascii(s: Seq<char>) -> Seq<char>;

/// Every character is ASCII.
pub open spec fn is_ascii_text(s: Seq<char>) -> bool {
    forall|i: int| 0 <= i < s.len() ==> (#[trigger] s[i] as u32) < 0x80
}

/// `A`..`Z` become `a`..`z`, every other character stays (std's `char::to_ascii_lowercase`).
pub open spec fn ascii_lower(c: char) -> char {
    if 'A' <= c && c <= 'Z' {
        ((c as u32) + 32) as char
    } else {
        c
    }
}

/// `ascii_lower` applied to each character.
pub open spec fn ascii_lower_text(s: Seq<char>) -> Seq<char> {
    s.map_values(|c: char| ascii_lower(c))
}

/// What std's `str::to_lowercase` returns: for an ASCII text, `A`..`Z` lowered and every other
/// character kept; otherwise the Unicode lowercase mapping.
pub open spec fn unicode_lowercase(s: Seq<char>) -> Seq<char> {
    if is_ascii_text(s) {
        ascii_lower_text(s)
    } else {
        unicode_lowercase_non_ascii(s)
    }
}

/// Calls std `str::to_lowercase`. Trusted: the result is the Unicode lowercase mapping of `s`,
/// a function of `s` alone; for a text of ASCII characters that mapping turns `A`..`Z` into
/// `a`..`z` and keeps every other character (the Unicode `Lowercase` mapping that std's
/// documentation names). What it does to other characters is left to the name.
#[verifier::external_body]
pub(crate) fn to_lowercase_text(s: &str) -> (r: String)
    ensures
        r@ == unicode_lowercase(s@),
        is_ascii_text(s@) ==> r@ == ascii_lower_text(s@),
        !is_ascii_text(s@) ==> r@ == unicode_lowercase_non_ascii(s@),
{
    s.to_lowercase()
}

/// Calls std `String::push`. Trusted: the character is appended at the end.
#[verifier::external_body]
pub(crate) fn push_char(s: &mut String, c: char)
    ensures
        final(s)@ == old(s)@.push(c),
{
    s.push(c)
}

/// The characters of a text, in order.
pub fn chars_of(s: &str) -> (v: Vec<char>)
    ensures
        v@ == s@,
{
    let n = s.unicode_len();
    let mut v: Vec<char> = Vec::new();
    let mut i: usize = 0;
    while i < n
        invariant
            n == s@.len(),
            i <= n,
            v@ == s@.take(i as int),
        decreases n - i,
    {
        v.push(s.get_char(i));
        i = i + 1;
        assert(v@ =~= s@.take(i as int));
    }
    assert(s@.take(n as int) =~= s@);
    v
}

/// Appends characters to a string.
pub fn push_chars(s: &mut String, cs: &[char])
    ensures
        final(s)@ == old(s)@ + cs@,
{
    let mut i: usize = 0;
    while i < cs.len()
        invariant
            i <= cs@.len(),
            s@ == old(s)@ + cs@.take(i as int),
        decreases cs.len() - i,
    {
        push_char(s, cs[i]);
        i = i + 1;
        assert(s@ =~= old(s)@ + cs@.take(i as int));
    }
    assert(cs@.take(cs@.len() as int) =~= cs@);
}

/// A string holding the given characters.
pub fn string_of(cs: &[char]) -> (s: String)
    ensures
        s@ == cs@,
{
    let mut s = String::new();
    push_chars(&mut s, cs);
    assert(s@ =~= cs@);
    s
}

/// Drops leading characters with the Unicode `White_Space` property.
pub open spec fn trim_start_spec(s: Seq<char>) -> Seq<char>
    decreases s.len(),
{
    if s.len() > 0 && unicode_white_space(s[0]) {
        trim_start_spec(s.drop_first())
    } else {
        s
    }
}

/// Drops trailing characters with the Unicode `White_Space` property.
pub open spec fn trim_end_spec(s: Seq<char>) -> Seq<char>
    decreases s.len(),
{
    if s.len() > 0 && unicode_white_space(s.last()) {
        trim_end_spec(s.drop_last())
    } else {
        s
    }
}

/// What std's `str::trim` keeps of a text.
pub open spec fn trim_spec(s: Seq<char>) -> Seq<char> {
    trim_end_spec(trim_start_spec(s))
}

/// The bounds `(a, b)` of the trimmed part of `cs`.
pub fn trim_bounds(cs: &[char]) -> (r: (usize, usize))
    ensures
        r.0 <= r.1 <= cs@.len(),
        cs@.subrange(r.0 as int, r.1 as int) == trim_spec(cs@),
{
    let n = cs.len();
    let mut a: usize = 0;
    assert(cs@.skip(0) =~= cs@);
    while a < n && is_whitespace_char(cs[a])
        invariant
            a <= n == cs@.len(),
            trim_start_spec(cs@) == trim_start_spec(cs@.skip(a as int)),
        decreases n - a,
    {
        assert(cs@.skip(a as int).drop_first() =~= cs@.skip(a + 1));
        a = a + 1;
    }
    let ghost front = cs@.skip(a as int);
    assert(trim_start_spec(front) == front);
    let mut b: usize = n;
    while b > a && is_whitespace_char(cs[b - 1])
        invariant
            a <= b <= n == cs@.len(),
            front == cs@.skip(a as int),
            trim_end_spec(front) == trim_end_spec(cs@.subrange(a as int, b as int)),
        decreases b,
    {
        assert(cs@.subrange(a as int, b as int).drop_last() =~= cs@.subrange(a as int, b - 1));
        b = b - 1;
    }
    assert(cs@.subrange(a as int, n as int) =~= front);
    (a, b)
}

/// `str::trim`, as characters.
pub fn trim_chars(cs: &[char]) -> (r: Vec<char>)
    ensures
        r@ == trim_spec(cs@),
{
    let (a, b) = trim_bounds(cs);
    let mut r: Vec<char> = Vec::new();
    let mut i: usize = a;
    while i < b
        invariant
            a <= i <= b <= cs@.len(),
            r@ == cs@.subrange(a as int, i as int),
        decreases b - i,
    {
        r.push(cs[i]);
        i = i + 1;
        assert(r@ =~= cs@.subrange(a as int, i as int));
    }
    r
}


/// `n` stands in `h` at position `i`.
pub open spec fn occurs_at(h: Seq<char>, n: Seq<char>, i: int) -> bool {
    0 <= i && i + n.len() <= h.len() && h.subrange(i, i + n.len()) == n
}

/// The first position at or after `i` where `n` stands in `h`.
pub open spec fn find_from(h: Seq<char>, n: Seq<char>, i: int) -> Option<int>
    decreases h.len() + 1 - i,
{
    if i < 0 || i + n.len() > h.len() {
        None
    } else if occurs_at(h, n, i) {
        Some(i)
    } else {
        find_from(h, n, i + 1)
    }
}

/// The first position where `n` stands in `h` (what std's `find` locates, counted in characters).
pub open spec fn find_spec(h: Seq<char>, n: Seq<char>) -> Option<int> {
    find_from(h, n, 0)
}

/// `h` holds `n` as a substring (std's `str::contains`).
pub open spec fn contains_spec(h: Seq<char>, n: Seq<char>) -> bool {
    find_spec(h, n) is Some
}

/// Whether `n` stands in `h` at position `i`.
pub fn occurs_at_exec(h: &[char], n: &[char], i: usize) -> (b: bool)
    ensures
        b == occurs_at(h@, n@, i as int),
{
    if i > h.len() || n.len() > h.len() - i {
        return false;
    }
    let mut j: usize = 0;
    while j < n.len()
        invariant
            i + n@.len() <= h.len(),
            j <= n@.len(),
            forall|k: int| 0 <= k < j ==> h@[i + k] == n@[k],
        decreases n.len() - j,
    {
        if h[i + j] != n[j] {
            assert(h@.subrange(i as int, i + n@.len())[j as int] != n@[j as int]);
            return false;
        }
        j = j + 1;
    }
    assert(h@.subrange(i as int, i + n@.len()) =~= n@);
    true
}

/// The first position of `n` in `h`, as std's `find` gives it (in characters).
pub fn find_chars(h: &[char], n: &[char]) -> (r: Option<usize>)
    ensures
        r matches Some(i) ==> find_spec(h@, n@) == Some(i as int),
        r is None ==> find_spec(h@, n@) is None,
{
    let mut i: usize = 0;
    while i <= h.len() && n.len() <= h.len() - i
        invariant
            i <= h@.len() + 1,
            find_spec(h@, n@) == find_from(h@, n@, i as int),
        decreases h.len() + 1 - i,
    {
        if occurs_at_exec(h, n, i) {
            return Some(i);
        }
        if i == h.len() {
            assert(find_from(h@, n@, i + 1) is None);
            return None;
        }
        i = i + 1;
    }
    None
}

/// Whether `h` holds `n` as a substring.
pub fn contains_chars(h: &[char], n: &[char]) -> (b: bool)
    ensures
        b == contains_spec(h@, n@),
{
    find_chars(h, n).is_some()
}

/// The number of bytes of the UTF-8 encoding of a character.
pub open spec fn utf8_width(c: char) -> nat {
    let u = c as u32;
    if u < 0x80 {
        1
    } else if u < 0x800 {
        2
    } else if u < 0x1_0000 {
        3
    } else {
        4
    }
}

/// The number of bytes of the UTF-8 encoding of a text (std's `str::len`).
pub open spec fn utf8_len(s: Seq<char>) -> nat
    decreases s.len(),
{
    if s.len() == 0 {
        0
    } else {
        utf8_len(s.drop_last()) + utf8_width(s.last())
    }
}

/// `utf8_width`, computed.
pub fn utf8_width_exec(c: char) -> (w: usize)
    ensures
        w == utf8_width(c),
{
    let u = c as u32;
    if u < 0x80 {
        1
    } else if u < 0x800 {
        2
    } else if u < 0x1_0000 {
        3
    } else {
        4
    }
}

/// ASCII digits and letters (std's `char::is_ascii_alphanumeric`).
pub open spec fn is_ascii_alnum(c: char) -> bool {
    ('0' <= c && c <= '9') || ('A' <= c && c <= 'Z') || ('a' <= c && c <= 'z')
}

/// What std's `char::to_ascii_uppercase` returns: `a`..`z` become `A`..`Z`,
/// every other character stays.
pub open spec fn ascii_upper(c: char) -> char {
    if 'a' <= c && c <= 'z' {
        ((c as u32) - 32) as char
    } else {
        c
    }
}

/// `ascii_upper` applied to each character (std's `str::to_ascii_uppercase`).
pub open spec fn ascii_upper_text(s: Seq<char>) -> Seq<char> {
    s.map_values(|c: char| ascii_upper(c))
}

/// `ascii_upper` of a character (std's `char::to_ascii_uppercase`).
pub fn to_ascii_upper_char(c: char) -> (r: char)
    ensures
        r == ascii_upper(c),
{
    if 'a' <= c && c <= 'z' {
        ((c as u8) - 32) as char
    } else {
        c
    }
}

/// `str::to_ascii_uppercase`, as characters.
pub fn ascii_upper_chars(cs: &[char]) -> (r: Vec<char>)
    ensures
        r@ == ascii_upper_text(cs@),
{
    let mut r: Vec<char> = Vec::new();
    let mut i: usize = 0;
    while i < cs.len()
        invariant
            i <= cs@.len(),
            r@ == ascii_upper_text(cs@.take(i as int)),
        decreases cs.len() - i,
    {
        r.push(to_ascii_upper_char(cs[i]));
        i = i + 1;
        assert(r@ =~= ascii_upper_text(cs@.take(i as int)));
    }
    assert(cs@.take(cs@.len() as int) =~= cs@);
    r
}



/// Whether two character sequences are equal.
pub fn chars_eq(a: &[char], b: &[char]) -> (r: bool)
    ensures
        r == (a@ == b@),
{
    if a.len() != b.len() {
        return false;
    }
    let mut i: usize = 0;
    while i < a.len()
        invariant
            a@.len() == b@.len(),
            i <= a@.len(),
            forall|k: int| 0 <= k < i ==> a@[k] == b@[k],
        decreases a.len() - i,
    {
        if a[i] != b[i] {
            return false;
        }
        i = i + 1;
    }
    assert(a@ =~= b@);
    true
}

/// Whether two texts are equal.
pub fn text_eq(a: &str, b: &str) -> (r: bool)
    ensures
        r == (a@ == b@),
{
    let ac = chars_of(a);
    let bc = chars_of(b);
    chars_eq(ac.as_slice(), bc.as_slice())
}

/// At most the first `n` elements of `s` (what `take(n)` on an iterator yields).
pub open spec fn take_upto<A>(s: Seq<A>, n: int) -> Seq<A> {
    if s.len() <= n {
        s
    } else {
        s.take(n)
    }
}


/// A found position holds an occurrence, at or after where the search began.
pub proof fn lemma_find_from_found(h: Seq<char>, n: Seq<char>, i: int)
    ensures
        find_from(h, n, i) matches Some(j) ==> occurs_at(h, n, j) && i <= j,
    decreases h.len() + 1 - i,
{
    if !(i < 0 || i + n.len() > h.len()) && !occurs_at(h, n, i) {
        lemma_find_from_found(h, n, i + 1);
    }
}


/// An occurrence at `j` means the search from `i <= j` finds one, at or before `j`.
pub proof fn lemma_find_from_reaches(h: Seq<char>, n: Seq<char>, i: int, j: int)
    requires
        0 <= i <= j,
        occurs_at(h, n, j),
    ensures
        find_from(h, n, i) matches Some(k) && k <= j,
    decreases j - i,
{
    if !occurs_at(h, n, i) {
        lemma_find_from_reaches(h, n, i + 1, j);
    }
}

/// `a` is a prefix of `b`.
pub open spec fn is_prefix<A>(a: Seq<A>, b: Seq<A>) -> bool {
    a.len() <= b.len() && b.take(a.len() as int) == a
}

/// A substring of a text is a substring of every text that extends it.
pub proof fn lemma_contains_extends(h1: Seq<char>, h2: Seq<char>, n: Seq<char>)
    requires
        is_prefix(h1, h2),
        contains_spec(h1, n),
    ensures
        contains_spec(h2, n),
{
    lemma_find_from_found(h1, n, 0);
    let j = find_spec(h1, n).unwrap();
    assert(h2.subrange(j, j + n.len()) =~= h1.subrange(j, j + n.len())) by {
        assert forall|k: int| 0 <= k < n.len() implies #[trigger] h2.subrange(j, j + n.len())[k]
            == h1.subrange(j, j + n.len())[k] by {
            assert(h2.take(h1.len() as int)[j + k] == h1[j + k]);
        }
    }
    lemma_find_from_reaches(h2, n, 0, j);
}

/// Joining a prefix of the parts gives a prefix of the joined parts.
pub proof fn lemma_join_prefix(b1: Seq<Seq<char>>, b2: Seq<Seq<char>>, sep: Seq<char>)
    requires
        is_prefix(b1, b2),
    ensures
        is_prefix(join(b1, sep), join(b2, sep)),
    decreases b2.len(),
{
    if b1.len() == 0 {
        assert(join(b2, sep).take(0) =~= join(b1, sep));
    } else if b1.len() == b2.len() {
        assert(b1 =~= b2);
        assert(join(b2, sep).take(join(b1, sep).len() as int) =~= join(b1, sep));
    } else {
        let front = b2.drop_last();
        assert(front.take(b1.len() as int) =~= b2.take(b1.len() as int));
        lemma_join_prefix(b1, front, sep);
        let j1 = join(b1, sep);
        let jf = join(front, sep);
        let j2 = join(b2, sep);
        assert(b2.len() > 1);
        assert(j2 == jf + sep + b2.last());
        assert(j2.take(j1.len() as int) =~= jf.take(j1.len() as int));
    }
}

/// Lowering an ASCII text twice lowers it once, and keeps it ASCII.
pub proof fn lemma_ascii_lower_idempotent(s: Seq<char>)
    requires
        is_ascii_text(s),
    ensures
        is_ascii_text(ascii_lower_text(s)),
        ascii_lower_text(ascii_lower_text(s)) == ascii_lower_text(s),
{
    let l = ascii_lower_text(s);
    assert forall|i: int| 0 <= i < l.len() implies (#[trigger] l[i] as u32) < 0x80 by {
        assert(l[i] == ascii_lower(s[i]));
        assert((s[i] as u32) < 0x80);
    }
    assert(ascii_lower_text(l) =~= l);
}

/// The elements of `cs` from `a` up to `b`.
pub fn sub_chars(cs: &[char], a: usize, b: usize) -> (r: Vec<char>)
    requires
        a <= b <= cs@.len(),
    ensures
        r@ == cs@.subrange(a as int, b as int),
{
    let mut r: Vec<char> = Vec::new();
    let mut i: usize = a;
    while i < b
        invariant
            a <= i <= b <= cs@.len(),
            r@ == cs@.subrange(a as int, i as int),
        decreases b - i,
    {
        r.push(cs[i]);
        i = i + 1;
        assert(r@ =~= cs@.subrange(a as int, i as int));
    }
    r
}

/// A text made of ASCII characters has as many bytes as characters.
pub proof fn lemma_utf8_len_ascii(s: Seq<char>)
    requires
        forall|i: int| 0 <= i < s.len() ==> (s[i] as u32) < 0x80,
    ensures
        utf8_len(s) == s.len(),
    decreases s.len(),
{
    if s.len() > 0 {
        lemma_utf8_len_ascii(s.drop_last());
    }
}

/// A character takes at most four bytes.
pub proof fn lemma_utf8_len_bound(s: Seq<char>)
    ensures
        utf8_len(s) <= 4 * s.len(),
    decreases s.len(),
{
    if s.len() > 0 {
        lemma_utf8_len_bound(s.drop_last());
    }
}

/// The number of UTF-8 bytes of the first `i` characters of `cs`.
pub fn utf8_len_prefix(cs: &[char], i: usize) -> (r: u128)
    requires
        i <= cs@.len(),
    ensures
        r == utf8_len(cs@.take(i as int)),
{
    let mut acc: u128 = 0;
    let mut j: usize = 0;
    while j < i
        invariant
            j <= i <= cs@.len(),
            acc == utf8_len(cs@.take(j as int)),
            acc <= 4 * j,
        decreases i - j,
    {
        let w = utf8_width_exec(cs[j]);
        assert(cs@.take(j + 1).drop_last() =~= cs@.take(j as int));
        acc = acc + w as u128;
        j = j + 1;
    }
    acc
}


/// Every match of the non-empty pattern `pat`, taken left to right without overlap, replaced
/// by `rep` (std's `str::replace` for a non-empty pattern).
pub open spec fn replace_all(s: Seq<char>, pat: Seq<char>, rep: Seq<char>) -> Seq<char>
    decreases s.len(),
{
    if s.len() == 0 {
        s
    } else if pat.len() > 0 && pat.len() <= s.len() && s.take(pat.len() as int) == pat {
        rep + replace_all(s.skip(pat.len() as int), pat, rep)
    } else {
        seq![s[0]] + replace_all(s.drop_first(), pat, rep)
    }
}

/// `replace_all`, computed.
pub fn replace_chars(s: &[char], pat: &[char], rep: &[char]) -> (r: Vec<char>)
    requires
        pat@.len() > 0,
    ensures
        r@ == replace_all(s@, pat@, rep@),
{
    let mut out: Vec<char> = Vec::new();
    let mut i: usize = 0;
    let n = s.len();
    assert(s@.skip(0) =~= s@);
    while i < n
        invariant
            n == s@.len(),
            i <= n,
            pat@.len() > 0,
            out@ + replace_all(s@.skip(i as int), pat@, rep@) == replace_all(s@, pat@, rep@),
        decreases n - i,
    {
        let ghost rest = s@.skip(i as int);
        if occurs_at_exec(s, pat, i) {
            assert(rest.take(pat@.len() as int) =~= s@.subrange(i as int, i + pat@.len()));
            assert(rest.skip(pat@.len() as int) =~= s@.skip(i + pat@.len()));
            let ghost before = out@;
            let mut j: usize = 0;
            while j < rep.len()
                invariant
                    j <= rep@.len(),
                    out@ == before + rep@.take(j as int),
                decreases rep.len() - j,
            {
                out.push(rep[j]);
                j = j + 1;
                assert(out@ =~= before + rep@.take(j as int));
            }
            assert(rep@.take(rep@.len() as int) =~= rep@);
            assert(out@ + replace_all(s@.skip(i + pat@.len()), pat@, rep@) =~= before + (rep@
                + replace_all(rest.skip(pat@.len() as int), pat@, rep@)));
            i = i + pat.len();
        } else {
            proof {
                if pat@.len() <= rest.len() {
                    assert(rest.take(pat@.len() as int) =~= s@.subrange(i as int, i + pat@.len()));
                }
            }
            assert(rest.drop_first() =~= s@.skip(i + 1));
            let ghost before = out@;
            out.push(s[i]);
            assert(out@ + replace_all(s@.skip(i + 1), pat@, rep@) =~= before + (seq![rest[0]]
                + replace_all(rest.drop_first(), pat@, rep@)));
            i = i + 1;
        }
    }
    assert(s@.skip(n as int) =~= Seq::<char>::empty());
    assert(out@ + Seq::<char>::empty() =~= out@);
    out
}

/// The maximal runs of non-whitespace characters of `s` (std's `split_whitespace`), where `cur`
/// is the run already begun.
pub open spec fn words_from(s: Seq<char>, cur: Seq<char>) -> Seq<Seq<char>>
    decreases s.len(),
{
    if s.len() == 0 {
        if cur.len() > 0 {
            seq![cur]
        } else {
            seq![]
        }
    } else if unicode_white_space(s[0]) {
        if cur.len() > 0 {
            seq![cur] + words_from(s.drop_first(), seq![])
        } else {
            words_from(s.drop_first(), seq![])
        }
    } else {
        words_from(s.drop_first(), cur.push(s[0]))
    }
}

/// The words of a text, as std's `split_whitespace` yields them.
pub open spec fn words(s: Seq<char>) -> Seq<Seq<char>> {
    words_from(s, seq![])
}

/// The parts joined with `sep` between neighbours (std's `join`).
pub open spec fn join(parts: Seq<Seq<char>>, sep: Seq<char>) -> Seq<char>
    decreases parts.len(),
{
    if parts.len() == 0 {
        seq![]
    } else if parts.len() == 1 {
        parts[0]
    } else {
        join(parts.drop_last(), sep) + sep + parts.last()
    }
}

/// The views of a vector of character vectors.
pub open spec fn char_vecs_view(v: Seq<Vec<char>>) -> Seq<Seq<char>> {
    v.map_values(|w: Vec<char>| w@)
}

/// The views of a vector of strings.
pub open spec fn strings_view(v: Seq<String>) -> Seq<Seq<char>> {
    v.map_values(|w: String| w@)
}

/// The words of a text.
pub fn split_words(s: &[char]) -> (r: Vec<Vec<char>>)
    ensures
        char_vecs_view(r@) == words(s@),
{
    let mut done: Vec<Vec<char>> = Vec::new();
    let mut cur: Vec<char> = Vec::new();
    let mut i: usize = 0;
    let n = s.len();
    assert(s@.skip(0) =~= s@);
    assert(char_vecs_view(done@) + words_from(s@, cur@) =~= words(s@));
    while i < n
        invariant
            n == s@.len(),
            i <= n,
            char_vecs_view(done@) + words_from(s@.skip(i as int), cur@) == words(s@),
        decreases n - i,
    {
        let ghost rest = s@.skip(i as int);
        assert(rest.drop_first() =~= s@.skip(i + 1));
        let c = s[i];
        if is_whitespace_char(c) {
            if cur.len() > 0 {
                let ghost old_done = done@;
                let ghost old_cur = cur@;
                done.push(cur);
                cur = Vec::new();
                assert(char_vecs_view(done@) =~= char_vecs_view(old_done) + seq![old_cur]);
                assert(char_vecs_view(done@) + words_from(s@.skip(i + 1), cur@) =~= char_vecs_view(
                    old_done,
                ) + (seq![old_cur] + words_from(rest.drop_first(), seq![])));
            } else {
                assert(cur@ =~= Seq::<char>::empty());
            }
        } else {
            cur.push(c);
        }
        i = i + 1;
    }
    assert(s@.skip(n as int) =~= Seq::<char>::empty());
    if cur.len() > 0 {
        let ghost old_done = done@;
        let ghost old_cur = cur@;
        done.push(cur);
        assert(char_vecs_view(done@) =~= char_vecs_view(old_done) + seq![old_cur]);
    } else {
        assert(char_vecs_view(done@) + Seq::<Seq<char>>::empty() =~= char_vecs_view(done@));
    }
    done
}

/// The character vectors joined with `sep` between neighbours.
pub fn join_char_vecs(parts: &Vec<Vec<char>>, sep: &[char]) -> (r: Vec<char>)
    ensures
        r@ == join(char_vecs_view(parts@), sep@),
{
    let mut out: Vec<char> = Vec::new();
    let mut i: usize = 0;
    while i < parts.len()
        invariant
            i <= parts@.len(),
            out@ == join(char_vecs_view(parts@).take(i as int), sep@),
        decreases parts.len() - i,
    {
        let ghost ps = char_vecs_view(parts@);
        assert(ps.take(i + 1).drop_last() =~= ps.take(i as int));
        if i == 0 {
            assert(ps.take(1) =~= seq![parts@[0]@]);
            assert(out@ =~= Seq::<char>::empty());
            let ghost before = out@;
            push_all(&mut out, parts[0].as_slice());
            assert(out@ =~= parts@[0]@);
        } else {
            push_all(&mut out, sep);
            push_all(&mut out, parts[i].as_slice());
        }
        i = i + 1;
    }
    assert(char_vecs_view(parts@).take(parts@.len() as int) =~= char_vecs_view(parts@));
    out
}

/// Appends characters to a character vector.
pub fn push_all(out: &mut Vec<char>, cs: &[char])
    ensures
        final(out)@ == old(out)@ + cs@,
{
    let mut j: usize = 0;
    while j < cs.len()
        invariant
            j <= cs@.len(),
            out@ == old(out)@ + cs@.take(j as int),
        decreases cs.len() - j,
    {
        out.push(cs[j]);
        j = j + 1;
        assert(out@ =~= old(out)@ + cs@.take(j as int));
    }
    assert(cs@.take(cs@.len() as int) =~= cs@);
}

/// The strings joined with `sep` between neighbours (std's `join` on a slice of strings).
pub fn join_strings(parts: &Vec<String>, sep: &str) -> (r: String)
    ensures
        r@ == join(strings_view(parts@), sep@),
{
    let mut out = String::new();
    let mut i: usize = 0;
    while i < parts.len()
        invariant
            i <= parts@.len(),
            out@ == join(strings_view(parts@).take(i as int), sep@),
        decreases parts.len() - i,
    {
        let ghost ps = strings_view(parts@);
        assert(ps.take(i + 1).drop_last() =~= ps.take(i as int));
        if i == 0 {
            assert(ps.take(1) =~= seq![parts@[0]@]);
            out = parts[0].clone();
        } else {
            out.append(sep);
            out.append(parts[i].as_str());
        }
        i = i + 1;
    }
    assert(strings_view(parts@).take(parts@.len() as int) =~= strings_view(parts@));
    out
}


/// No character of `w` has the Unicode `White_Space` property.
pub open spec fn has_no_white_space(w: Seq<char>) -> bool {
    forall|i: int| 0 <= i < w.len() ==> !unicode_white_space(#[trigger] w[i])
}

/// A text without leading or trailing whitespace whose only whitespace is single spaces
/// between non-whitespace characters.
pub open spec fn is_whitespace_normal(s: Seq<char>) -> bool {
    &&& s.len() > 0 ==> !unicode_white_space(s[0]) && !unicode_white_space(s[s.len() - 1])
    &&& forall|i: int|
        0 <= i < s.len() && #[trigger] unicode_white_space(s[i]) ==> s[i] == ' ' && 0 < i < s.len()
            - 1 && !unicode_white_space(s[i - 1]) && !unicode_white_space(s[i + 1])
}

/// Every word is non-empty and free of whitespace.
pub proof fn lemma_words_from_clean(s: Seq<char>, cur: Seq<char>)
    requires
        has_no_white_space(cur),
    ensures
        forall|k: int|
            0 <= k < words_from(s, cur).len() ==> (#[trigger] words_from(s, cur)[k]).len() > 0
                && has_no_white_space(words_from(s, cur)[k]),
    decreases s.len(),
{
    if s.len() == 0 {
        if cur.len() > 0 {
            assert(words_from(s, cur) == seq![cur]);
        } else {
            assert(words_from(s, cur).len() == 0);
        }
    } else if unicode_white_space(s[0]) {
        lemma_words_from_clean(s.drop_first(), seq![]);
        if cur.len() == 0 {
            assert(words_from(s, cur) == words_from(s.drop_first(), seq![]));
        }
        if cur.len() > 0 {
            let rest = words_from(s.drop_first(), seq![]);
            assert forall|k: int| 0 <= k < words_from(s, cur).len() implies (
            #[trigger] words_from(s, cur)[k]).len() > 0 && has_no_white_space(words_from(s, cur)[k]) by {
                if k > 0 {
                    assert(words_from(s, cur)[k] == rest[k - 1]);
                }
            }
        }
    } else {
        assert(has_no_white_space(cur.push(s[0])));
        lemma_words_from_clean(s.drop_first(), cur.push(s[0]));
        assert(words_from(s, cur) == words_from(s.drop_first(), cur.push(s[0])));
    }
}

/// Joining non-empty whitespace-free words with single spaces gives a whitespace-normal text.
pub proof fn lemma_join_words_normal(parts: Seq<Seq<char>>)
    requires
        forall|k: int|
            0 <= k < parts.len() ==> (#[trigger] parts[k]).len() > 0 && has_no_white_space(parts[k]),
    ensures
        is_whitespace_normal(join(parts, " "@)),
        parts.len() > 0 ==> join(parts, " "@).len() > 0,
    decreases parts.len(),
{
    reveal_strlit(" ");
    if parts.len() == 0 {
    } else if parts.len() == 1 {
        assert(has_no_white_space(parts[0]));
    } else {
        let front = parts.drop_last();
        assert forall|k: int| 0 <= k < front.len() implies (#[trigger] front[k]).len() > 0
            && has_no_white_space(front[k]) by {
            assert(front[k] == parts[k]);
        }
        lemma_join_words_normal(front);
        let jf = join(front, " "@);
        let last = parts.last();
        assert(has_no_white_space(parts[parts.len() - 1]));
        let j = join(parts, " "@);
        assert(j == jf + " "@ + last);
        let n = jf.len() as int;
        assert(j[n] == ' ');
        assert forall|i: int| 0 <= i < j.len() && #[trigger] unicode_white_space(j[i]) implies j[i]
            == ' ' && 0 < i < j.len() - 1 && !unicode_white_space(j[i - 1]) && !unicode_white_space(
            j[i + 1],
        ) by {
            if i < n {
                assert(j[i] == jf[i]);
                assert(j[i - 1] == jf[i - 1]);
                assert(j[i + 1] == jf[i + 1]);
            } else if i == n {
                assert(j[i - 1] == jf[n - 1]);
                assert(j[i + 1] == last[0]);
            } else {
                assert(j[i] == last[i - n - 1]);
            }
        }
        assert(j[0] == jf[0]);
        assert(j[j.len() - 1] == last[last.len() - 1]);
    }
}

/// Words of any text, joined with single spaces, form a whitespace-normal text.
pub proof fn lemma_joined_words_normal(s: Seq<char>)
    ensures
        is_whitespace_normal(join(words(s), " "@)),
{
    lemma_words_from_clean(s, seq![]);
    lemma_join_words_normal(words(s));
}


/// The decimal digit character for `d` in `0..10`.
pub open spec fn digit_char(d: int) -> char {
    if d == 0 {
        '0'
    } else if d == 1 {
        '1'
    } else if d == 2 {
        '2'
    } else if d == 3 {
        '3'
    } else if d == 4 {
        '4'
    } else if d == 5 {
        '5'
    } else if d == 6 {
        '6'
    } else if d == 7 {
        '7'
    } else if d == 8 {
        '8'
    } else {
        '9'
    }
}

/// The decimal representation of a natural number, without leading zeros.
pub open spec fn decimal(n: nat) -> Seq<char>
    decreases n,
{
    if n < 10 {
        seq![digit_char(n as int)]
    } else {
        decimal(n / 10).push(digit_char((n % 10) as int))
    }
}

fn digit_exec(d: u16) -> (c: char)
    requires
        d < 10,
    ensures
        c == digit_char(d as int),
{
    if d == 0 {
        '0'
    } else if d == 1 {
        '1'
    } else if d == 2 {
        '2'
    } else if d == 3 {
        '3'
    } else if d == 4 {
        '4'
    } else if d == 5 {
        '5'
    } else if d == 6 {
        '6'
    } else if d == 7 {
        '7'
    } else if d == 8 {
        '8'
    } else {
        '9'
    }
}

/// The decimal representation of `n`.
pub fn decimal_chars(n: u16) -> (r: Vec<char>)
    ensures
        r@ == decimal(n as nat),
    decreases n,
{
    if n < 10 {
        let mut v: Vec<char> = Vec::new();
        v.push(digit_exec(n));
        assert(v@ =~= seq![digit_char(n as int)]);
        v
    } else {
        let mut v = decimal_chars(n / 10);
        v.push(digit_exec(n % 10));
        v
    }
}

} // verus!
