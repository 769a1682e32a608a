//! Text operations on `str` and `String` with their meaning over `Seq<char>`.

use vstd::prelude::*;
use vstd::string::*;

verus! {

/// The pieces of `s` between the occurrences of `sep`, in order, as
/// `str::split` with a `char` pattern yields them (an empty string gives one
/// empty piece).
pub open spec fn split_seq(s: Seq<char>, sep: char) -> Seq<Seq<char>>
    decreases s.len(),
{
    if s.len() == 0 {
        seq![Seq::<char>::empty()]
    } else {
        let prev = split_seq(s.drop_last(), sep);
        if s.last() == sep {
            prev.push(Seq::<char>::empty())
        } else {
            prev.update(prev.len() - 1, prev.last().push(s.last()))
        }
    }
}

/// Splitting always yields at least one piece.
pub proof fn lemma_split_nonempty(s: Seq<char>, sep: char)
    ensures
        split_seq(s, sep).len() >= 1,
    decreases s.len(),
{
    if s.len() > 0 {
        lemma_split_nonempty(s.drop_last(), sep);
    }
}

/// `prefix` is a prefix of `s`.
pub open spec fn has_prefix(s: Seq<char>, prefix: Seq<char>) -> bool {
    prefix.len() <= s.len() && s.subrange(0, prefix.len() as int) == prefix
}

/// `suffix` is a suffix of `s`.
pub open spec fn has_suffix(s: Seq<char>, suffix: Seq<char>) -> bool {
    suffix.len() <= s.len() && s.subrange(s.len() - suffix.len(), s.len() as int) == suffix
}

/// Lexicographic order of strings by code point, which is the order of `str`
/// (byte-wise comparison of UTF-8 agrees with it).
pub open spec fn text_le(a: Seq<char>, b: Seq<char>) -> bool
    decreases a.len(),
{
    if a.len() == 0 {
        true
    } else if b.len() == 0 {
        false
    } else if (a[0] as int) < (b[0] as int) {
        true
    } else if (a[0] as int) > (b[0] as int) {
        false
    } else {
        text_le(a.drop_first(), b.drop_first())
    }
}

/// `text_le` is total.
pub proof fn lemma_text_le_total(a: Seq<char>, b: Seq<char>)
    ensures
        text_le(a, b) || text_le(b, a),
    decreases a.len(),
{
    if a.len() > 0 && b.len() > 0 && a[0] == b[0] {
        lemma_text_le_total(a.drop_first(), b.drop_first());
    }
}

/// `text_le` is antisymmetric.
pub proof fn lemma_text_le_antisymmetric(a: Seq<char>, b: Seq<char>)
    requires
        text_le(a, b),
        text_le(b, a),
    ensures
        a == b,
    decreases a.len(),
{
    if a.len() > 0 && b.len() > 0 {
        assert((a[0] as int) == (b[0] as int));
        lemma_text_le_antisymmetric(a.drop_first(), b.drop_first());
        assert(a =~= seq![a[0]] + a.drop_first());
        assert(b =~= seq![b[0]] + b.drop_first());
    }
}

/// A copy of `s` as an owned string.
pub fn owned(s: &str) -> (r: String)
    ensures
        r@ == s@,
{
    s.to_owned()
}

/// `a` followed by `b`.
pub fn concat2(a: &str, b: &str) -> (r: String)
    ensures
        r@ == a@ + b@,
{
    let mut r = a.to_owned();
    r.append(b);
    r
}

/// `a`, an underscore, then `b`: the shape of the keys that join two user ids.
pub fn join_underscore(a: &str, b: &str) -> (r: String)
    ensures
        r@ == a@ + seq!['_'] + b@,
{
    let mut r = a.to_owned();
    let sep = "_";
    proof {
        reveal_strlit("_");
    }
    r.append(sep);
    r.append(b);
    r
}

/// Whether two strings hold the same characters.
pub fn same_text(a: &str, b: &str) -> (r: bool)
    ensures
        r == (a@ == b@),
{
    let x = a.to_owned();
    let y = b.to_owned();
    x == y
}

/// `str::starts_with` with a string pattern.
pub fn starts_with(s: &str, prefix: &str) -> (r: bool)
    ensures
        r == has_prefix(s@, prefix@),
{
    let n = s.unicode_len();
    let m = prefix.unicode_len();
    if m > n {
        return false;
    }
    let mut i: usize = 0;
    while i < m
        invariant
            n == s@.len(),
            m == prefix@.len(),
            m <= n,
            i <= m,
            forall|j: int| 0 <= j < i ==> s@[j] == prefix@[j],
        decreases m - i,
    {
        if s.get_char(i) != prefix.get_char(i) {
            assert(s@.subrange(0, m as int)[i as int] != prefix@[i as int]);
            return false;
        }
        i += 1;
    }
    assert(s@.subrange(0, m as int) =~= prefix@);
    true
}

/// `str::ends_with` with a string pattern.
pub fn ends_with(s: &str, suffix: &str) -> (r: bool)
    ensures
        r == has_suffix(s@, suffix@),
{
    let n = s.unicode_len();
    let m = suffix.unicode_len();
    if m > n {
        return false;
    }
    let off = n - m;
    let mut i: usize = 0;
    while i < m
        invariant
            n == s@.len(),
            m == suffix@.len(),
            off == n - m,
            i <= m,
            forall|j: int| 0 <= j < i ==> s@[off + j] == suffix@[j],
        decreases m - i,
    {
        if s.get_char(off + i) != suffix.get_char(i) {
            assert(s@.subrange(off as int, n as int)[i as int] != suffix@[i as int]);
            return false;
        }
        i += 1;
    }
    assert(s@.subrange(off as int, n as int) =~= suffix@);
    true
}

/// Whether `a` comes before `b` or equals it in the order of `str`.
pub fn le_text(a: &str, b: &str) -> (r: bool)
    ensures
        r == text_le(a@, b@),
{
    let n = a.unicode_len();
    let m = b.unicode_len();
    let mut i: usize = 0;
    assert(a@.skip(0) =~= a@);
    assert(b@.skip(0) =~= b@);
    while i < n && i < m
        invariant
            n == a@.len(),
            m == b@.len(),
            i <= n,
            i <= m,
            text_le(a@, b@) == text_le(a@.skip(i as int), b@.skip(i as int)),
        decreases n - i,
    {
        let c = a.get_char(i);
        let d = b.get_char(i);
        assert(a@.skip(i as int)[0] == c);
        assert(b@.skip(i as int)[0] == d);
        if (c as u32) < (d as u32) {
            return true;
        }
        if (c as u32) > (d as u32) {
            return false;
        }
        assert(a@.skip(i as int).drop_first() =~= a@.skip(i + 1));
        assert(b@.skip(i as int).drop_first() =~= b@.skip(i + 1));
        i += 1;
    }
    i == n
}

/// `str::split` with a `char` pattern, each piece copied out.
pub fn split_on(s: &str, sep: char) -> (pieces: Vec<String>)
    ensures
        pieces.deep_view() == split_seq(s@, sep),
{
    let n = s.unicode_len();
    let mut pieces: Vec<String> = Vec::new();
    let mut start: usize = 0;
    let mut i: usize = 0;
    assert(s@.subrange(0, 0) =~= Seq::<char>::empty());
    assert(pieces@.map_values(|p: String| p@).push(s@.subrange(0, 0)) =~= seq![
        Seq::<char>::empty(),
    ]);
    while i < n
        invariant
            n == s@.len(),
            start <= i <= n,
            pieces@.map_values(|p: String| p@).push(s@.subrange(start as int, i as int))
                == split_seq(s@.subrange(0, i as int), sep),
        decreases n - i,
    {
        let c = s.get_char(i);
        let ghost old_pieces = pieces@.map_values(|p: String| p@);
        let ghost prefix = s@.subrange(0, i + 1);
        assert(prefix.drop_last() =~= s@.subrange(0, i as int));
        assert(prefix.last() == c);
        if c == sep {
            let piece = s.substring_char(start, i).to_owned();
            let ghost old_vec = pieces@;
            assert(piece@ == s@.subrange(start as int, i as int));
            pieces.push(piece);
            assert(pieces@ =~= old_vec.push(piece));
            assert(pieces@.map_values(|p: String| p@) =~= old_pieces.push(
                s@.subrange(start as int, i as int),
            ));
            start = i + 1;
            assert(s@.subrange(start as int, i + 1) =~= Seq::<char>::empty());
        } else {
            assert(s@.subrange(start as int, i + 1) =~= s@.subrange(start as int, i as int).push(
                c,
            ));
        }
        i += 1;
        assert(pieces@.map_values(|p: String| p@).push(s@.subrange(start as int, i as int))
            =~= split_seq(prefix, sep));
    }
    let last = s.substring_char(start, n).to_owned();
    pieces.push(last);
    assert(s@.subrange(0, n as int) =~= s@);
    assert(pieces@.map_values(|p: String| p@) =~= split_seq(s@, sep));
    assert(pieces.deep_view() =~= pieces@.map_values(|p: String| p@));
    pieces
}

/// What `str::to_lowercase` gives for a string (Unicode lowercase mapping,
/// context-dependent for final sigma).
pub uninterp spec fn lowercase(s: Seq<char>) -> Seq<char>;

/// Every character of `s` is ASCII.
pub open spec fn all_ascii(s: Seq<char>) -> bool {
    forall|i: int| 0 <= i < s.len() ==> (#[trigger] s[i] as int) < 0x80
}

/// `c` with `A` to `Z` mapped to `a` to `z`.
pub open spec fn ascii_lower_char(c: char) -> char {
    if 'A' <= c && c <= 'Z' {
        (((c as int) + 32) as char)
    } else {
        c
    }
}

/// `s` with its ASCII capitals in lowercase.
pub open spec fn ascii_lower(s: Seq<char>) -> Seq<char> {
    s.map_values(|c: char| ascii_lower_char(c))
}

/// What `str::to_lowercase` gives: the ASCII mapping where `s` is ASCII (the
/// Unicode lowercase mapping agrees with it there), the Unicode mapping
/// otherwise.
pub open spec fn lowered(s: Seq<char>) -> Seq<char> {
    if all_ascii(s) {
        ascii_lower(s)
    } else {
        lowercase(s)
    }
}

/// Calls `str::to_lowercase`; the result is the lowercase mapping of `s`,
/// which depends on `s` alone, and on ASCII text maps `A` to `Z` to `a` to
/// `z` and leaves every other character as it is.
#[verifier::external_body]
pub(crate) fn to_lowercase(s: &str) -> (r: String)
    ensures
        r@ == lowercase(s@),
        all_ascii(s@) ==> r@ == ascii_lower(s@),
{
    s.to_lowercase()
}

/// The pieces of `p` concatenated in reverse order, as collecting
/// `str::split(..).rev()` into a `String` yields them.
pub open spec fn concat_reversed(p: Seq<Seq<char>>) -> Seq<char>
    decreases p.len(),
{
    if p.len() == 0 {
        Seq::<char>::empty()
    } else {
        p.last() + concat_reversed(p.drop_last())
    }
}

/// The pieces of `pieces`, last first, written one after the other.
pub fn concat_in_reverse(pieces: &Vec<String>) -> (r: String)
    ensures
        r@ == concat_reversed(pieces.deep_view()),
{
    let mut r = String::new();
    let n = pieces.len();
    let mut i: usize = 0;
    assert(pieces.deep_view().take(0) =~= Seq::<Seq<char>>::empty());
    while i < n
        invariant
            n == pieces@.len(),
            i <= n,
            r@ == concat_reversed(pieces.deep_view().take(i as int)),
        decreases n - i,
    {
        let next = concat2(pieces[i].as_str(), r.as_str());
        assert(pieces.deep_view().take(i + 1).drop_last() =~= pieces.deep_view().take(i as int));
        r = next;
        i += 1;
    }
    assert(pieces.deep_view().take(n as int) =~= pieces.deep_view());
    r
}

/// `s` holds no `sep`.
pub open spec fn free_of(s: Seq<char>, sep: char) -> bool {
    forall|i: int| 0 <= i < s.len() ==> #[trigger] s[i] != sep
}

/// Characters without `sep` extend the last piece.
pub proof fn lemma_split_extend(p: Seq<char>, r: Seq<char>, sep: char)
    requires
        free_of(r, sep),
    ensures
        split_seq(p + r, sep) == split_seq(p, sep).update(
            split_seq(p, sep).len() - 1,
            split_seq(p, sep).last() + r,
        ),
    decreases r.len(),
{
    lemma_split_nonempty(p, sep);
    if r.len() == 0 {
        assert(p + r =~= p);
        assert(split_seq(p, sep).last() + r =~= split_seq(p, sep).last());
        assert(split_seq(p, sep).update(split_seq(p, sep).len() - 1, split_seq(p, sep).last())
            =~= split_seq(p, sep));
    } else {
        let r0 = r.drop_last();
        lemma_split_extend(p, r0, sep);
        assert((p + r).drop_last() =~= p + r0);
        assert((p + r).last() == r.last());
        assert(r.last() == r[r.len() - 1]);
        assert((split_seq(p, sep).last() + r0).push(r.last()) =~= split_seq(p, sep).last() + r);
        let q = split_seq(p + r0, sep);
        assert(q.last() == split_seq(p, sep).last() + r0);
        assert(q.update(q.len() - 1, q.last().push(r.last())) =~= split_seq(p, sep).update(
            split_seq(p, sep).len() - 1,
            split_seq(p, sep).last() + r,
        ));
    }
}

/// Two pieces without `sep`, joined by `sep`, split back into those pieces.
pub proof fn lemma_split_joined(a: Seq<char>, b: Seq<char>, sep: char)
    requires
        free_of(a, sep),
        free_of(b, sep),
    ensures
        split_seq(a + seq![sep] + b, sep) == seq![a, b],
{
    let e = Seq::<char>::empty();
    lemma_split_extend(e, a, sep);
    assert(e + a =~= a);
    assert(seq![e].update(0, e + a) =~= seq![a]);
    let a_sep = a + seq![sep];
    assert(a_sep.drop_last() =~= a);
    assert(split_seq(a_sep, sep) =~= seq![a, e]);
    lemma_split_extend(a_sep, b, sep);
    assert(e + b =~= b);
    assert(seq![a, e].update(1, e + b) =~= seq![a, b]);
}

/// The pieces `p` written one after the other with `sep` between them.
pub open spec fn join_with(p: Seq<Seq<char>>, sep: char) -> Seq<char>
    decreases p.len(),
{
    if p.len() == 0 {
        Seq::<char>::empty()
    } else if p.len() == 1 {
        p[0]
    } else {
        join_with(p.drop_last(), sep) + seq![sep] + p.last()
    }
}

/// Joining the pieces of a split with the separator gives the string back.
pub proof fn lemma_split_rejoin(s: Seq<char>, sep: char)
    ensures
        join_with(split_seq(s, sep), sep) == s,
    decreases s.len(),
{
    if s.len() > 0 {
        let s0 = s.drop_last();
        let c = s.last();
        lemma_split_rejoin(s0, sep);
        lemma_split_nonempty(s0, sep);
        let p = split_seq(s0, sep);
        if c == sep {
            let q = p.push(Seq::<char>::empty());
            assert(q.drop_last() =~= p);
            assert(join_with(p, sep) + seq![sep] + Seq::<char>::empty() =~= s);
        } else {
            let q = p.update(p.len() - 1, p.last().push(c));
            if p.len() == 1 {
                assert(q[0] =~= s);
            } else {
                assert(q.drop_last() =~= p.drop_last());
                assert(join_with(p.drop_last(), sep) + seq![sep] + p.last().push(c) =~= (join_with(
                    p.drop_last(),
                    sep,
                ) + seq![sep] + p.last()).push(c));
                assert(s0.push(c) =~= s);
            }
        }
    }
}

/// No piece of a split holds the separator.
pub proof fn lemma_split_pieces_free(s: Seq<char>, sep: char)
    ensures
        forall|i: int|
            0 <= i < split_seq(s, sep).len() ==> free_of(#[trigger] split_seq(s, sep)[i], sep),
    decreases s.len(),
{
    if s.len() > 0 {
        lemma_split_pieces_free(s.drop_last(), sep);
        lemma_split_nonempty(s.drop_last(), sep);
        let p = split_seq(s.drop_last(), sep);
        if s.last() != sep {
            assert(free_of(p.last(), sep));
            assert(free_of(p.last().push(s.last()), sep));
        }
    }
}

/// A string that splits into two pieces is the first piece, the separator,
/// and the second piece.
pub proof fn lemma_split_two(s: Seq<char>, sep: char)
    requires
        split_seq(s, sep).len() == 2,
    ensures
        s == split_seq(s, sep)[0] + seq![sep] + split_seq(s, sep)[1],
        free_of(split_seq(s, sep)[0], sep),
        free_of(split_seq(s, sep)[1], sep),
{
    lemma_split_rejoin(s, sep);
    lemma_split_pieces_free(s, sep);
    let p = split_seq(s, sep);
    assert(p.drop_last().len() == 1);
    assert(p.drop_last()[0] == p[0]);
    assert(join_with(p.drop_last(), sep) == p[0]);
    assert(p.last() == p[1]);
    assert(join_with(p, sep) == p[0] + seq![sep] + p[1]);
}

/// `c` has the Unicode `White_Space` property, which `char::is_whitespace`
/// tests: U+0009 to U+000D, U+0020, U+0085, U+00A0, U+1680, U+2000 to U+200A,
/// U+2028, U+2029, U+202F, U+205F and U+3000.
pub open spec fn is_white_space(c: char) -> bool {
    let n = c as int;
    (0x9 <= n && n <= 0xd) || n == 0x20 || n == 0x85 || n == 0xa0 || n == 0x1680 || (0x2000 <= n
        && n <= 0x200a) || n == 0x2028 || n == 0x2029 || n == 0x202f || n == 0x205f || n == 0x3000
}

/// `char::is_whitespace`.
pub fn char_is_whitespace(c: char) -> (r: bool)
    ensures
        r == is_white_space(c),
{
    let n = c as u32;
    (0x9 <= n && n <= 0xd) || n == 0x20 || n == 0x85 || n == 0xa0 || n == 0x1680 || (0x2000 <= n
        && n <= 0x200a) || n == 0x2028 || n == 0x2029 || n == 0x202f || n == 0x205f || n == 0x3000
}

/// `s` without its leading white space.
pub open spec fn trim_start_seq(s: Seq<char>) -> Seq<char>
    decreases s.len(),
{
    if s.len() > 0 && is_white_space(s[0]) {
        trim_start_seq(s.drop_first())
    } else {
        s
    }
}

/// `s` without its trailing white space.
pub open spec fn trim_end_seq(s: Seq<char>) -> Seq<char>
    decreases s.len(),
{
    if s.len() > 0 && is_white_space(s.last()) {
        trim_end_seq(s.drop_last())
    } else {
        s
    }
}

/// `s` without leading and trailing white space, as `str::trim` gives it.
pub open spec fn trim_seq(s: Seq<char>) -> Seq<char> {
    trim_end_seq(trim_start_seq(s))
}

/// `str::trim`: `s` without leading and trailing white space.
pub fn trim(s: &str) -> (r: String)
    ensures
        r@ == trim_seq(s@),
{
    let n = s.unicode_len();
    let mut i: usize = 0;
    assert(s@.skip(0) =~= s@);
    while i < n && char_is_whitespace(s.get_char(i))
        invariant
            n == s@.len(),
            i <= n,
            trim_start_seq(s@) == trim_start_seq(s@.skip(i as int)),
        decreases n - i,
    {
        assert(s@.skip(i as int).drop_first() =~= s@.skip(i + 1));
        i += 1;
    }
    assert(trim_start_seq(s@.skip(i as int)) == s@.skip(i as int));
    assert(s@.skip(i as int) =~= s@.subrange(i as int, n as int));
    let mut j: usize = n;
    while j > i && char_is_whitespace(s.get_char(j - 1))
        invariant
            n == s@.len(),
            i <= j <= n,
            trim_seq(s@) == trim_end_seq(s@.subrange(i as int, j as int)),
        decreases j,
    {
        assert(s@.subrange(i as int, j as int).drop_last() =~= s@.subrange(i as int, j - 1));
        j -= 1;
    }
    s.substring_char(i, j).to_owned()
}

/// The value of the decimal digits `d`.
pub open spec fn digits_value(d: Seq<char>) -> nat
    decreases d.len(),
{
    if d.len() == 0 {
        0
    } else {
        digits_value(d.drop_last()) * 10 + ((d.last() as int) - ('0' as int)) as nat
    }
}

/// Every character of `d` is an ASCII digit.
pub open spec fn all_digits(d: Seq<char>) -> bool {
    forall|i: int| 0 <= i < d.len() ==> '0' <= #[trigger] d[i] && d[i] <= '9'
}

/// What `u32::from_str` gives: an optional `+`, then one or more ASCII digits
/// whose value fits in a `u32`; anything else is an error.
pub open spec fn parse_u32_seq(s: Seq<char>) -> Option<u32> {
    let d = if s.len() > 0 && s[0] == '+' {
        s.drop_first()
    } else {
        s
    };
    if d.len() > 0 && all_digits(d) && digits_value(d) <= u32::MAX {
        Some(digits_value(d) as u32)
    } else {
        None
    }
}

/// More digits never make a smaller number.
pub proof fn lemma_digits_value_grows(d: Seq<char>, k: int)
    requires
        0 <= k <= d.len(),
        all_digits(d),
    ensures
        digits_value(d.take(k)) <= digits_value(d),
    decreases d.len() - k,
{
    if k < d.len() {
        lemma_digits_value_grows(d, k + 1);
        assert(d.take(k + 1).drop_last() =~= d.take(k));
        assert('0' <= d[k] && d[k] <= '9');
    } else {
        assert(d.take(k) =~= d);
    }
}

/// `u32::from_str`: the number that `s` writes in decimal with an optional
/// leading `+`, or `None` where `s` is not such a number or the number does not
/// fit in a `u32`.
pub fn parse_u32(s: &str) -> (r: Option<u32>)
    ensures
        r == parse_u32_seq(s@),
{
    let n = s.unicode_len();
    let start: usize = if n > 0 && s.get_char(0) == '+' {
        1
    } else {
        0
    };
    let ghost d = if s@.len() > 0 && s@[0] == '+' {
        s@.drop_first()
    } else {
        s@
    };
    assert(d =~= s@.skip(start as int));
    if start == n {
        return None;
    }
    let mut value: u64 = 0;
    let mut i: usize = start;
    assert(d.take(0) =~= Seq::<char>::empty());
    while i < n
        invariant
            n == s@.len(),
            start <= i <= n,
            d == s@.skip(start as int),
            d == (if s@.len() > 0 && s@[0] == '+' {
                s@.drop_first()
            } else {
                s@
            }),
            d.len() == n - start,
            forall|k: int| 0 <= k < i - start ==> '0' <= #[trigger] d[k] && d[k] <= '9',
            value == digits_value(d.take(i - start)),
            value <= u32::MAX,
        decreases n - i,
    {
        let c = s.get_char(i);
        assert(d[i - start] == c);
        if c < '0' || c > '9' {
            assert(!('0' <= d[i - start] && d[i - start] <= '9'));
            assert(!all_digits(d));
            return None;
        }
        let digit: u64 = (c as u64) - ('0' as u64);
        assert(d.take(i - start + 1).drop_last() =~= d.take(i - start));
        value = value * 10 + digit;
        assert(d.take(i - start + 1).last() == c);
        assert(value == digits_value(d.take(i - start + 1)));
        if value > 4294967295 {
            proof {
                if all_digits(d) {
                    lemma_digits_value_grows(d, i - start + 1);
                }
            }
            return None;
        }
        i += 1;
    }
    assert(d.take(n - start) =~= d);
    Some(value as u32)
}

} // verus!
