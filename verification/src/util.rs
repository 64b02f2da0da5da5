//! Sequence and text helpers shared by the whole library.
use vstd::prelude::*;
use vstd::string::StringExecFns;
use vstd::string::StrSliceExecFns;

verus! {

// ---------------------------------------------------------------------------
// Searching sequences
// ---------------------------------------------------------------------------
/// Index of the first element of `s` satisfying `p`, or -1 when there is none.
pub open spec fn first_index<T>(s: Seq<T>, p: spec_fn(T) -> bool) -> int
    decreases s.len(),
{
    if s.len() == 0 {
        -1
    } else if p(s[0]) {
        0
    } else {
        let r = first_index(s.drop_first(), p);
        if r < 0 {
            -1
        } else {
            r + 1
        }
    }
}

/// `first_index` is the least index satisfying the predicate.
pub proof fn lemma_first_index<T>(s: Seq<T>, p: spec_fn(T) -> bool)
    ensures
        -1 <= first_index(s, p) < s.len(),
        first_index(s, p) >= 0 ==> p(s[first_index(s, p)]),
        forall|j: int| 0 <= j < first_index(s, p) ==> !p(#[trigger] s[j]),
        first_index(s, p) == -1 ==> forall|j: int| 0 <= j < s.len() ==> !p(#[trigger] s[j]),
    decreases s.len(),
{
    if s.len() > 0 && !p(s[0]) {
        lemma_first_index(s.drop_first(), p);
        assert forall|j: int| 1 <= j < s.len() implies s[j] == s.drop_first()[j - 1] by {}
    }
}

/// Two sequences whose elements agree on two predicates, place by place, have the same
/// first index for them.
pub proof fn lemma_first_index_agree<T, U>(s: Seq<T>, t: Seq<U>, p: spec_fn(T) -> bool, q: spec_fn(U) -> bool)
    requires
        s.len() == t.len(),
        forall|i: int| 0 <= i < s.len() ==> p(#[trigger] s[i]) == q(t[i]),
    ensures
        first_index(s, p) == first_index(t, q),
    decreases s.len(),
{
    if s.len() > 0 {
        assert(p(s[0]) == q(t[0]));
        let s2 = s.drop_first();
        let t2 = t.drop_first();
        assert forall|i: int| 0 <= i < s2.len() implies p(#[trigger] s2[i]) == q(t2[i]) by {
            assert(p(s[i + 1]) == q(t[i + 1]));
        }
        lemma_first_index_agree(s2, t2, p, q);
    }
}

/// The predicate "is equal to `x`".
pub open spec fn equals<T>(x: T) -> spec_fn(T) -> bool {
    |y: T| y == x
}

/// The predicate "the key of this entry is `k`".
pub open spec fn key_is<K, V>(k: K) -> spec_fn((K, V)) -> bool {
    |e: (K, V)| e.0 == k
}

/// Position of the first occurrence of `x` in `s`, or -1.
pub open spec fn pos_of<T>(s: Seq<T>, x: T) -> int {
    first_index(s, equals(x))
}

/// Index of the first entry with key `k`, or -1.
pub open spec fn key_index<K, V>(s: Seq<(K, V)>, k: K) -> int {
    first_index(s, key_is::<K, V>(k))
}

/// Value of the first entry with key `k`.
pub open spec fn lookup<K, V>(s: Seq<(K, V)>, k: K) -> Option<V> {
    if key_index(s, k) >= 0 {
        Some(s[key_index(s, k)].1)
    } else {
        None
    }
}

/// Some entry carries key `k`.
pub open spec fn has_key<K, V>(s: Seq<(K, V)>, k: K) -> bool {
    key_index(s, k) >= 0
}

/// Two tables whose entries carry the same keys, in the same order, find every key
/// at the same place.
pub proof fn lemma_same_keys<K, V, W>(s: Seq<(K, V)>, t: Seq<(K, W)>)
    requires
        s.len() == t.len(),
        forall|i: int| 0 <= i < s.len() ==> #[trigger] s[i].0 == t[i].0,
    ensures
        forall|k: K| #[trigger] key_index(t, k) == key_index(s, k),
{
    assert forall|k: K| #[trigger] key_index(t, k) == key_index(s, k) by {
        lemma_same_keys_at(s, t, k);
    }
}

proof fn lemma_same_keys_at<K, V, W>(s: Seq<(K, V)>, t: Seq<(K, W)>, k: K)
    requires
        s.len() == t.len(),
        forall|i: int| 0 <= i < s.len() ==> #[trigger] s[i].0 == t[i].0,
    ensures
        key_index(t, k) == key_index(s, k),
    decreases s.len(),
{
    if s.len() > 0 {
        assert(s[0].0 == t[0].0);
        let s2 = s.drop_first();
        let t2 = t.drop_first();
        assert forall|i: int| 0 <= i < s2.len() implies #[trigger] s2[i].0 == t2[i].0 by {
            assert(s[i + 1].0 == t[i + 1].0);
        }
        lemma_same_keys_at(s2, t2, k);
    }
}

/// What is left after removing the first occurrence of `x` was in `s`.
pub proof fn lemma_remove_first_subset<T>(s: Seq<T>, x: T)
    ensures
        forall|y: T| #[trigger] remove_first(s, x).contains(y) ==> s.contains(y),
        remove_first(s, x).len() <= s.len(),
{
    lemma_first_index(s, equals(x));
    assert forall|y: T| remove_first(s, x).contains(y) implies s.contains(y) by {
        let r = remove_first(s, x);
        let k = choose|k: int| 0 <= k < r.len() && r[k] == y;
        if pos_of(s, x) >= 0 {
            let p = pos_of(s, x);
            if k < p {
                assert(s[k] == y);
            } else {
                assert(s[k + 1] == y);
            }
        } else {
            assert(s[k] == y);
        }
    }
}

/// Removing every `x` keeps every other element.
pub proof fn lemma_remove_all_keeps<T>(s: Seq<T>, x: T)
    ensures
        forall|y: T| s.contains(y) && y != x ==> #[trigger] remove_all(s, x).contains(y),
    decreases s.len(),
{
    if s.len() > 0 {
        let t = s.drop_last();
        lemma_remove_all_keeps(t, x);
        assert forall|y: T| s.contains(y) && y != x implies #[trigger] remove_all(s, x).contains(y) by {
            let k = choose|k: int| 0 <= k < s.len() && s[k] == y;
            let r = remove_all(t, x);
            if k < s.len() - 1 {
                assert(t[k] == y);
                assert(t.contains(y));
                assert(r.contains(y));
                let m = choose|m: int| 0 <= m < r.len() && r[m] == y;
                if s.last() != x {
                    assert(r.push(s.last())[m] == y);
                }
            } else {
                assert(remove_all(s, x) == r.push(y));
                assert(r.push(y)[r.len() as int] == y);
            }
        }
    }
}

/// What is left after removing every occurrence of `x` was in `s`, and `x` is gone.
pub proof fn lemma_remove_all_subset<T>(s: Seq<T>, x: T)
    ensures
        forall|y: T| #[trigger] remove_all(s, x).contains(y) ==> s.contains(y) && y != x,
    decreases s.len(),
{
    if s.len() > 0 {
        lemma_remove_all_subset(s.drop_last(), x);
        assert forall|y: T| remove_all(s, x).contains(y) implies s.contains(y) && y != x by {
            let r = remove_all(s, x);
            let k = choose|k: int| 0 <= k < r.len() && r[k] == y;
            let d = remove_all(s.drop_last(), x);
            if s.last() == x {
                assert(d.contains(y));
                let j = choose|j: int| 0 <= j < s.drop_last().len() && s.drop_last()[j] == y;
                assert(s[j] == y);
            } else if k < d.len() {
                assert(d[k] == y);
                assert(d.contains(y));
                let j = choose|j: int| 0 <= j < s.drop_last().len() && s.drop_last()[j] == y;
                assert(s[j] == y);
            } else {
                assert(y == s.last());
                assert(s[s.len() - 1] == y);
            }
        }
    }
}

/// `s` with the first occurrence of `x` removed (unchanged if absent).
pub open spec fn remove_first<T>(s: Seq<T>, x: T) -> Seq<T> {
    if pos_of(s, x) >= 0 {
        s.remove(pos_of(s, x))
    } else {
        s
    }
}

/// `s` with every occurrence of `x` removed.
pub open spec fn remove_all<T>(s: Seq<T>, x: T) -> Seq<T>
    decreases s.len(),
{
    if s.len() == 0 {
        s
    } else if s.last() == x {
        remove_all(s.drop_last(), x)
    } else {
        remove_all(s.drop_last(), x).push(s.last())
    }
}

/// Position of the first occurrence of `x` in `v`.
pub fn position_of(v: &Vec<i32>, x: i32) -> (r: Option<usize>)
    ensures
        match r {
            Some(i) => i as int == pos_of(v@, x),
            None => pos_of(v@, x) == -1,
        },
{
    proof {
        lemma_first_index(v@, equals(x));
    }
    let mut i: usize = 0;
    while i < v.len()
        invariant
            i <= v@.len(),
            forall|j: int| 0 <= j < i ==> v@[j] != x,
            -1 <= pos_of(v@, x) < v@.len(),
            pos_of(v@, x) >= 0 ==> v@[pos_of(v@, x)] == x,
            forall|j: int| 0 <= j < pos_of(v@, x) ==> v@[j] != x,
            pos_of(v@, x) == -1 ==> forall|j: int| 0 <= j < v@.len() ==> v@[j] != x,
        decreases v@.len() - i,
    {
        if v[i] == x {
            return Some(i);
        }
        i = i + 1;
    }
    None
}

/// Whether `v` holds `x`.
pub fn contains_id(v: &Vec<i32>, x: i32) -> (b: bool)
    ensures
        b == v@.contains(x),
{
    proof {
        lemma_first_index(v@, equals(x));
    }
    match position_of(v, x) {
        Some(i) => true,
        None => {
            assert(!v@.contains(x)) by {
                if v@.contains(x) {
                    let j = choose|j: int| 0 <= j < v@.len() && v@[j] == x;
                    assert(!equals(x)(v@[j]));
                }
            }
            false
        },
    }
}

/// Removes the first occurrence of `x` from `v`; reports whether there was one.
pub fn remove_first_id(v: &mut Vec<i32>, x: i32) -> (found: bool)
    ensures
        found == (pos_of(old(v)@, x) >= 0),
        final(v)@ == remove_first(old(v)@, x),
{
    proof {
        lemma_first_index(v@, equals(x));
    }
    match position_of(v, x) {
        Some(i) => {
            v.remove(i);
            true
        },
        None => false,
    }
}

/// Removes every occurrence of `x` from `v`, keeping the order of the rest.
pub fn remove_all_id(v: &mut Vec<i32>, x: i32)
    ensures
        final(v)@ == remove_all(old(v)@, x),
{
    let ghost orig = v@;
    let mut kept: Vec<i32> = Vec::new();
    let mut i: usize = 0;
    while i < v.len()
        invariant
            i <= v@.len(),
            v@ == orig,
            kept@ == remove_all(orig.take(i as int), x),
        decreases v@.len() - i,
    {
        let y = v[i];
        proof {
            assert(orig.take(i + 1).drop_last() == orig.take(i as int));
        }
        if y != x {
            kept.push(y);
        }
        i = i + 1;
    }
    assert(orig.take(i as int) == orig);
    *v = kept;
}

// ---------------------------------------------------------------------------
// Views of strings
// ---------------------------------------------------------------------------
/// The characters of each string.
pub open spec fn texts(v: Seq<String>) -> Seq<Seq<char>> {
    v.map_values(|s: String| s@)
}

/// Whether `s` spells `lit`.
pub fn text_is(s: &str, lit: &str) -> (b: bool)
    ensures
        b == (s@ == lit@),
{
    let a = String::from_str(s);
    let t = String::from_str(lit);
    a == t
}

/// `a` followed by `b`, as a new string.
pub fn cat(a: &str, b: &str) -> (r: String)
    ensures
        r@ == a@ + b@,
{
    String::from_str(a).concat(b)
}

/// `a`, `b` and `c` joined, as a new string.
pub fn cat3(a: &str, b: &str, c: &str) -> (r: String)
    ensures
        r@ == a@ + b@ + c@,
{
    String::from_str(a).concat(b).concat(c)
}

/// A copy of `s`.
pub fn owned(s: &str) -> (r: String)
    ensures
        r@ == s@,
{
    String::from_str(s)
}

/// The strings of `v` separated by single spaces.
pub open spec fn join_spaced(v: Seq<Seq<char>>) -> Seq<char>
    decreases v.len(),
{
    if v.len() == 0 {
        Seq::empty()
    } else if v.len() == 1 {
        v[0]
    } else {
        join_spaced(v.drop_last()) + " "@ + v.last()
    }
}

/// Joins the strings of `v` with single spaces.
pub fn join_with_spaces(v: &Vec<String>) -> (r: String)
    ensures
        r@ == join_spaced(texts(v@)),
{
    let mut r = String::new();
    let mut i: usize = 0;
    while i < v.len()
        invariant
            i <= v@.len(),
            r@ == join_spaced(texts(v@.take(i as int))),
        decreases v@.len() - i,
    {
        proof {
            assert(texts(v@.take(i + 1)).drop_last() == texts(v@.take(i as int)));
            assert(texts(v@.take(i + 1)).last() == v@[i as int]@);
        }
        if i == 0 {
            r.append(v[i].as_str());
            assert(texts(v@.take(1)) == seq![v@[0]@]);
        } else {
            r.append(" ");
            r.append(v[i].as_str());
        }
        i = i + 1;
    }
    assert(v@.take(i as int) == v@);
    r
}

// ---------------------------------------------------------------------------
// Characters: calls into std whose results the library names
// ---------------------------------------------------------------------------
/// What `str::to_lowercase` gives for a string.
pub uninterp spec fn lowercase(s: Seq<char>) -> Seq<char>;

/// The character has the Unicode White_Space property, which `char::is_whitespace`
/// tests: tab, line feed, vertical tab, form feed, carriage return, space, next line,
/// no-break space, ogham space mark, the spaces U+2000 to U+200A, line separator,
/// paragraph separator, narrow no-break space, medium mathematical space and
/// ideographic space.
pub open spec fn is_whitespace(c: char) -> bool {
    let n = c as u32;
    ||| 0x9 <= n <= 0xD
    ||| n == 0x20
    ||| n == 0x85
    ||| n == 0xA0
    ||| n == 0x1680
    ||| 0x2000 <= n <= 0x200A
    ||| n == 0x2028
    ||| n == 0x2029
    ||| n == 0x202F
    ||| n == 0x205F
    ||| n == 0x3000
}

/// What `char::is_alphanumeric` gives for a character.
pub uninterp spec fn is_alphanumeric(c: char) -> bool;

/// The characters that `char::to_uppercase` yields for a character.
pub uninterp spec fn uppercase(c: char) -> Seq<char>;

/// Calls `str::to_lowercase`; the result is named `lowercase` of the input. On ASCII
/// text the Unicode lower-case mapping is the ASCII one: each of 'A' to 'Z' becomes its
/// small letter and every other character stays as it is.
#[verifier::external_body]
pub(crate) fn to_lowercase(s: &str) -> (r: String)
    ensures
        r@ == lowercase(s@),
        all_ascii(s@) ==> r@ == ascii_lowered(s@),
{
    s.to_lowercase()
}

/// Whether the character has the Unicode White_Space property, as
/// `char::is_whitespace` tests it.
pub(crate) fn char_is_whitespace(c: char) -> (b: bool)
    ensures
        b == is_whitespace(c),
{
    let n = c as u32;
    (0x9 <= n && n <= 0xD) || n == 0x20 || n == 0x85 || n == 0xA0 || n == 0x1680 || (0x2000 <= n && n <= 0x200A)
        || n == 0x2028 || n == 0x2029 || n == 0x202F || n == 0x205F || n == 0x3000
}

/// Calls `char::is_alphanumeric`; the result is named `is_alphanumeric` of the input.
#[verifier::external_body]
pub(crate) fn char_is_alphanumeric(c: char) -> (b: bool)
    ensures
        b == is_alphanumeric(c),
{
    c.is_alphanumeric()
}

/// Calls `char::to_uppercase` and collects the characters it yields into a string;
/// the result is named `uppercase` of the input. An ASCII character yields one
/// character: 'a' to 'z' their capitals, any other ASCII character itself.
#[verifier::external_body]
pub(crate) fn char_to_uppercase(c: char) -> (r: String)
    ensures
        r@ == uppercase(c),
        is_ascii_char(c) ==> r@ == seq![ascii_upper(c)],
{
    c.to_uppercase().collect::<String>()
}

/// Calls `String::push`, which appends one character.
#[verifier::external_body]
pub(crate) fn push_char(s: &mut String, c: char)
    ensures
        final(s)@ == old(s)@.push(c),
{
    s.push(c)
}

/// The text with its first character in upper case.
pub open spec fn capitalized(s: Seq<char>) -> Seq<char> {
    if s.len() == 0 {
        Seq::empty()
    } else {
        uppercase(s[0]) + s.drop_first()
    }
}

/// Produces a string with the first letter capitalized.
pub fn capitalize(canonical: &str) -> (r: String)
    ensures
        r@ == capitalized(canonical@),
        canonical@.len() > 0 && is_ascii_char(canonical@[0]) ==> r@ == seq![ascii_upper(canonical@[0])]
            + canonical@.drop_first(),
{
    let n = canonical.unicode_len();
    if n == 0 {
        return String::new();
    }
    let first = canonical.get_char(0);
    let rest = canonical.substring_char(1, n);
    let up = char_to_uppercase(first);
    up.concat(rest)
}

/// ASCII lower-casing of one character, as `u8::to_ascii_lowercase` defines it.
pub open spec fn ascii_lower(c: char) -> char {
    if 'A' <= c && c <= 'Z' {
        ((c as u32) + 32) as char
    } else {
        c
    }
}

/// The character is ASCII.
pub open spec fn is_ascii_char(c: char) -> bool {
    (c as u32) < 128
}

/// Every character of the text is ASCII.
pub open spec fn all_ascii(s: Seq<char>) -> bool {
    forall|i: int| 0 <= i < s.len() ==> is_ascii_char(#[trigger] s[i])
}

/// The text with each of 'A' to 'Z' replaced by its small letter.
pub open spec fn ascii_lowered(s: Seq<char>) -> Seq<char> {
    s.map_values(|c: char| ascii_lower(c))
}

/// An ASCII character that is not a capital letter.
pub open spec fn ascii_small(c: char) -> bool {
    is_ascii_char(c) && !('A' <= c && c <= 'Z')
}

/// Lower-casing an ASCII character gives an ASCII character that is not a capital,
/// and a character that is not a capital stays as it is.
pub proof fn lemma_ascii_lower(c: char)
    ensures
        is_ascii_char(c) ==> ascii_small(ascii_lower(c)),
        !('A' <= c && c <= 'Z') ==> ascii_lower(c) == c,
{
    if 'A' <= c && c <= 'Z' {
        let n = (c as u32) + 32;
        assert(97 <= n <= 122);
        assert((n as char) as u32 == n);
    }
}

/// ASCII upper-casing of one character, as `u8::to_ascii_uppercase` defines it.
pub open spec fn ascii_upper(c: char) -> char {
    if 'a' <= c && c <= 'z' {
        ((c as u32) - 32) as char
    } else {
        c
    }
}

/// Equality of two texts up to ASCII case.
pub open spec fn eq_ascii_case(a: Seq<char>, b: Seq<char>) -> bool {
    a.len() == b.len() && forall|i: int| 0 <= i < a.len() ==> ascii_lower(#[trigger] a[i]) == ascii_lower(b[i])
}

fn lower_char(c: char) -> (r: char)
    ensures
        r == ascii_lower(c),
{
    if 'A' <= c && c <= 'Z' {
        let b: u8 = c as u8;
        ((b + 32) as u8) as char
    } else {
        c
    }
}

/// Compares two texts ignoring ASCII case, as `str::eq_ignore_ascii_case` does.
pub fn eq_ignore_ascii_case(a: &str, b: &str) -> (r: bool)
    ensures
        r == eq_ascii_case(a@, b@),
{
    let n = a.unicode_len();
    let m = b.unicode_len();
    if n != m {
        return false;
    }
    let mut i: usize = 0;
    while i < n
        invariant
            n == a@.len(),
            m == b@.len(),
            n == m,
            i <= n,
            forall|j: int| 0 <= j < i ==> ascii_lower(#[trigger] a@[j]) == ascii_lower(b@[j]),
        decreases n - i,
    {
        let x = lower_char(a.get_char(i));
        let y = lower_char(b.get_char(i));
        if x != y {
            return false;
        }
        i = i + 1;
    }
    true
}

} // verus!
