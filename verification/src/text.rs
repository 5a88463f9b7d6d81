//! Character-level helpers used by the extractors.

use vstd::prelude::*;
use vstd::utf8::*;

verus! {

broadcast use vstd::seq_lib::group_seq_properties;

/// The characters of `s`, as a vector.
pub fn chars_of(s: &str) -> (v: Vec<char>)
    ensures
        v@ == s@,
{
    let mut v: Vec<char> = Vec::new();
    for c in it: s.chars()
        invariant
            v@ == it.seq().take(it.index() as int),
            it.seq() == s@,
    {
        v.push(c);
    }
    v
}

/// Whether two string slices hold the same characters.
pub fn str_eq(a: &str, b: &str) -> (r: bool)
    ensures
        r == (a@ == b@),
{
    let x = a.as_bytes();
    let y = b.as_bytes();
    proof {
        encode_utf8_decode_utf8(a@);
        encode_utf8_decode_utf8(b@);
    }
    if x.len() != y.len() {
        return false;
    }
    let mut i: usize = 0;
    while i < x.len()
        invariant
            x@ == encode_utf8(a@),
            y@ == encode_utf8(b@),
            x@.len() == y@.len(),
            i <= x@.len(),
            forall|j: int| 0 <= j < i ==> x@[j] == y@[j],
        decreases x@.len() - i,
    {
        if x[i] != y[i] {
            return false;
        }
        i = i + 1;
    }
    assert(x@ =~= y@);
    true
}


/// Whether `c` has the Unicode `White_Space` property, the set that
/// `char::is_whitespace` and `str::trim` use.
pub open spec fn is_white_space(c: char) -> bool {
    let u = c as u32;
    ||| (0x09 <= u && u <= 0x0d)
    ||| u == 0x20
    ||| u == 0x85
    ||| u == 0xa0
    ||| u == 0x1680
    ||| (0x2000 <= u && u <= 0x200a)
    ||| u == 0x2028
    ||| u == 0x2029
    ||| u == 0x202f
    ||| u == 0x205f
    ||| u == 0x3000
}

/// `s` without its leading characters that belong to `set`.
pub open spec fn strip_start_in(s: Seq<char>, set: Seq<char>) -> Seq<char>
    decreases s.len(),
{
    if s.len() > 0 && set.contains(s[0]) {
        strip_start_in(s.drop_first(), set)
    } else {
        s
    }
}

/// `s` without its trailing characters that belong to `set`.
pub open spec fn strip_end_in(s: Seq<char>, set: Seq<char>) -> Seq<char>
    decreases s.len(),
{
    if s.len() > 0 && set.contains(s.last()) {
        strip_end_in(s.drop_last(), set)
    } else {
        s
    }
}

/// `s` without the characters of `set` at either end (`str::trim_matches`
/// with a predicate that tests membership in `set`).
pub open spec fn strip_in(s: Seq<char>, set: Seq<char>) -> Seq<char> {
    strip_end_in(strip_start_in(s, set), set)
}

/// `s` without its leading white space.
pub open spec fn strip_start_ws(s: Seq<char>) -> Seq<char>
    decreases s.len(),
{
    if s.len() > 0 && is_white_space(s[0]) {
        strip_start_ws(s.drop_first())
    } else {
        s
    }
}

/// `s` without its trailing white space.
pub open spec fn strip_end_ws(s: Seq<char>) -> Seq<char>
    decreases s.len(),
{
    if s.len() > 0 && is_white_space(s.last()) {
        strip_end_ws(s.drop_last())
    } else {
        s
    }
}

/// `s` without white space at either end (`str::trim`).
pub open spec fn trim_ws(s: Seq<char>) -> Seq<char> {
    strip_end_ws(strip_start_ws(s))
}

/// The index of the first line feed in `s`, or its length when it has none.
pub open spec fn newline_pos(s: Seq<char>) -> int
    decreases s.len(),
{
    if s.len() == 0 {
        0
    } else if s[0] == '\n' {
        0
    } else {
        1 + newline_pos(s.drop_first())
    }
}

/// The first item that `str::lines` yields for `s`, or the empty sequence
/// when it yields none: the text before the first line feed, without one
/// carriage return right before that line feed.
pub open spec fn first_line(s: Seq<char>) -> Seq<char> {
    let k = newline_pos(s);
    let line = s.take(k);
    if k < s.len() && line.len() > 0 && line.last() == '\r' {
        line.drop_last()
    } else {
        line
    }
}

proof fn lemma_newline_pos(s: Seq<char>, i: int)
    requires
        0 <= i <= s.len(),
        forall|j: int| 0 <= j < i ==> s[j] != '\n',
        i == s.len() || s[i] == '\n',
    ensures
        newline_pos(s) == i,
    decreases i,
{
    if i > 0 {
        lemma_newline_pos(s.drop_first(), i - 1);
    }
}

proof fn lemma_strip_start_in_skip(s: Seq<char>, set: Seq<char>, i: int)
    requires
        0 <= i <= s.len(),
        forall|j: int| 0 <= j < i ==> set.contains(#[trigger] s[j]),
    ensures
        strip_start_in(s, set) == strip_start_in(s.skip(i), set),
    decreases i,
{
    if i > 0 {
        assert(s.skip(1) =~= s.drop_first());
        assert(s.drop_first().skip(i - 1) =~= s.skip(i));
        assert(set.contains(s[0]));
        lemma_strip_start_in_skip(s.drop_first(), set, i - 1);
    } else {
        assert(s.skip(0) =~= s);
    }
}

proof fn lemma_strip_start_ws_skip(s: Seq<char>, i: int)
    requires
        0 <= i <= s.len(),
        forall|j: int| 0 <= j < i ==> is_white_space(s[j]),
    ensures
        strip_start_ws(s) == strip_start_ws(s.skip(i)),
    decreases i,
{
    if i > 0 {
        assert(s.skip(1) =~= s.drop_first());
        assert(s.drop_first().skip(i - 1) =~= s.skip(i));
        lemma_strip_start_ws_skip(s.drop_first(), i - 1);
    } else {
        assert(s.skip(0) =~= s);
    }
}

/// The elements of `v` from index `start` on.
fn suffix_from(v: &Vec<char>, start: usize) -> (r: Vec<char>)
    requires
        start <= v@.len(),
    ensures
        r@ == v@.skip(start as int),
{
    let mut r: Vec<char> = Vec::new();
    let mut i = start;
    while i < v.len()
        invariant
            start <= i <= v@.len(),
            r@ == v@.subrange(start as int, i as int),
        decreases v@.len() - i,
    {
        r.push(v[i]);
        i = i + 1;
    }
    r
}

/// The elements of `v` before index `end`.
fn prefix_to(v: &Vec<char>, end: usize) -> (r: Vec<char>)
    requires
        end <= v@.len(),
    ensures
        r@ == v@.take(end as int),
{
    let mut r: Vec<char> = Vec::new();
    let mut i: usize = 0;
    while i < end
        invariant
            i <= end <= v@.len(),
            r@ == v@.take(i as int),
        decreases end - i,
    {
        r.push(v[i]);
        i = i + 1;
    }
    r
}

/// Whether `c` is one of the characters of `set`.
pub fn in_set(c: char, set: &[char]) -> (r: bool)
    ensures
        r == set@.contains(c),
{
    let mut i: usize = 0;
    while i < set.len()
        invariant
            i <= set@.len(),
            forall|j: int| 0 <= j < i ==> set@[j] != c,
        decreases set@.len() - i,
    {
        if set[i] == c {
            assert(set@[i as int] == c);
            return true;
        }
        i = i + 1;
    }
    false
}

/// `s` without its leading characters that belong to `set`.
pub fn trim_start_in(s: &Vec<char>, set: &[char]) -> (r: Vec<char>)
    ensures
        r@ == strip_start_in(s@, set@),
{
    let mut i: usize = 0;
    while i < s.len() && in_set(s[i], set)
        invariant
            i <= s@.len(),
            forall|j: int| 0 <= j < i ==> set@.contains(#[trigger] s@[j]),
        decreases s@.len() - i,
    {
        i = i + 1;
    }
    proof {
        lemma_strip_start_in_skip(s@, set@, i as int);
    }
    suffix_from(s, i)
}

/// `s` without its trailing characters that belong to `set`.
pub fn trim_end_in(s: &Vec<char>, set: &[char]) -> (r: Vec<char>)
    ensures
        r@ == strip_end_in(s@, set@),
{
    let mut k: usize = s.len();
    while k > 0 && in_set(s[k - 1], set)
        invariant
            k <= s@.len(),
            strip_end_in(s@.take(k as int), set@) == strip_end_in(s@, set@),
        decreases k,
    {
        proof {
            assert(s@.take(k as int).drop_last() =~= s@.take(k - 1));
        }
        k = k - 1;
    }
    proof {
        assert(s@.take(s@.len() as int) =~= s@);
    }
    prefix_to(s, k)
}

/// `s` without the characters of `set` at either end.
pub fn trim_in(s: &Vec<char>, set: &[char]) -> (r: Vec<char>)
    ensures
        r@ == strip_in(s@, set@),
{
    let a = trim_start_in(s, set);
    trim_end_in(&a, set)
}

/// Whether `c` is white space in the sense of `char::is_whitespace`.
pub fn is_white_space_char(c: char) -> (r: bool)
    ensures
        r == is_white_space(c),
{
    let u = c as u32;
    (0x09 <= u && u <= 0x0d) || u == 0x20 || u == 0x85 || u == 0xa0 || u == 0x1680
        || (0x2000 <= u && u <= 0x200a) || u == 0x2028 || u == 0x2029 || u == 0x202f
        || u == 0x205f || u == 0x3000
}

/// `s` without white space at either end, as `str::trim` computes it.
pub fn trim_white_space(s: &Vec<char>) -> (r: Vec<char>)
    ensures
        r@ == trim_ws(s@),
{
    let mut i: usize = 0;
    while i < s.len() && is_white_space_char(s[i])
        invariant
            i <= s@.len(),
            forall|j: int| 0 <= j < i ==> is_white_space(s@[j]),
        decreases s@.len() - i,
    {
        i = i + 1;
    }
    proof {
        lemma_strip_start_ws_skip(s@, i as int);
    }
    let a = suffix_from(s, i);
    let mut k: usize = a.len();
    while k > 0 && is_white_space_char(a[k - 1])
        invariant
            k <= a@.len(),
            strip_end_ws(a@.take(k as int)) == strip_end_ws(a@),
        decreases k,
    {
        proof {
            assert(a@.take(k as int).drop_last() =~= a@.take(k - 1));
        }
        k = k - 1;
    }
    proof {
        assert(a@.take(a@.len() as int) =~= a@);
    }
    prefix_to(&a, k)
}

/// The first line of `s`, as the first item of `str::lines` gives it.
pub fn first_line_of(s: &Vec<char>) -> (r: Vec<char>)
    ensures
        r@ == first_line(s@),
{
    let mut i: usize = 0;
    while i < s.len() && s[i] != '\n'
        invariant
            i <= s@.len(),
            forall|j: int| 0 <= j < i ==> s@[j] != '\n',
        decreases s@.len() - i,
    {
        i = i + 1;
    }
    proof {
        lemma_newline_pos(s@, i as int);
    }
    if i < s.len() && i > 0 && s[i - 1] == '\r' {
        prefix_to(s, i - 1)
    } else {
        prefix_to(s, i)
    }
}


proof fn lemma_strip_start_ws_first(s: Seq<char>)
    ensures
        strip_start_ws(s).len() > 0 ==> !is_white_space(strip_start_ws(s)[0]),
        strip_start_ws(s).len() <= s.len(),
        strip_start_ws(s).len() > 0 ==> strip_start_ws(s).last() == s.last(),
    decreases s.len(),
{
    if s.len() > 0 && is_white_space(s[0]) {
        lemma_strip_start_ws_first(s.drop_first());
    }
}

proof fn lemma_strip_end_ws_ends(s: Seq<char>)
    ensures
        strip_end_ws(s).len() > 0 ==> !is_white_space(strip_end_ws(s).last()),
        strip_end_ws(s).len() > 0 ==> strip_end_ws(s)[0] == s[0],
    decreases s.len(),
{
    if s.len() > 0 && is_white_space(s.last()) {
        lemma_strip_end_ws_ends(s.drop_last());
        if strip_end_ws(s).len() > 0 {
            assert(s.drop_last()[0] == s[0]);
        }
    }
}

/// Text trimmed of white space neither starts nor ends with white space.
pub proof fn lemma_trim_ws_ends(s: Seq<char>)
    ensures
        trim_ws(s).len() > 0 ==> !is_white_space(trim_ws(s)[0]) && !is_white_space(trim_ws(s).last()),
{
    lemma_strip_start_ws_first(s);
    lemma_strip_end_ws_ends(strip_start_ws(s));
}

/// What `String::from_utf8_lossy` makes of `bytes`, as characters.
pub uninterp spec fn lossy_utf8(bytes: Seq<u8>) -> Seq<char>;

/// What `str::to_uppercase` makes of `s`.
pub uninterp spec fn upper_case(s: Seq<char>) -> Seq<char>;

/// What `str::to_lowercase` makes of `s`.
pub uninterp spec fn lower_case(s: Seq<char>) -> Seq<char>;

/// Calls `String::from_utf8`: it succeeds exactly on valid UTF-8, and then
/// holds the decoded characters.
#[verifier::external_body]
pub(crate) fn decode_utf8_string(bytes: &[u8]) -> (r: Option<String>)
    ensures
        r is Some <==> valid_utf8(bytes@),
        r matches Some(s) ==> s@ == decode_utf8(bytes@),
{
    String::from_utf8(bytes.to_vec()).ok()
}

/// The characters of `bytes` when they are valid UTF-8.
pub(crate) fn decode_utf8_chars(bytes: &[u8]) -> (r: Option<Vec<char>>)
    ensures
        r is Some <==> valid_utf8(bytes@),
        r matches Some(v) ==> v@ == decode_utf8(bytes@),
{
    match decode_utf8_string(bytes) {
        Some(s) => Some(chars_of(s.as_str())),
        None => None,
    }
}

/// Calls `String::from_utf8_lossy`; on valid UTF-8 it decodes as
/// `String::from_utf8` does. What it puts in place of invalid sequences is
/// left to the name `lossy_utf8`.
#[verifier::external_body]
pub(crate) fn lossy_string(bytes: &[u8]) -> (r: String)
    ensures
        r@ == lossy_utf8(bytes@),
        valid_utf8(bytes@) ==> r@ == decode_utf8(bytes@),
{
    String::from_utf8_lossy(bytes).into_owned()
}

/// The characters of `bytes`, decoded as `String::from_utf8_lossy` does.
pub(crate) fn lossy_chars(bytes: &[u8]) -> (r: Vec<char>)
    ensures
        r@ == lossy_utf8(bytes@),
        valid_utf8(bytes@) ==> r@ == decode_utf8(bytes@),
{
    let s = lossy_string(bytes);
    chars_of(s.as_str())
}

/// Collects characters into a `String` (`FromIterator<&char>`), which holds
/// exactly those characters.
#[verifier::external_body]
pub(crate) fn string_from_chars(v: &[char]) -> (r: String)
    ensures
        r@ == v@,
{
    v.iter().collect()
}

/// Whether every character of `s` is ASCII.
pub open spec fn is_ascii_text(s: Seq<char>) -> bool {
    forall|i: int| 0 <= i < s.len() ==> (#[trigger] s[i] as u32) < 128
}

/// An ASCII upper-case letter in lower case; any other character as it is.
pub open spec fn ascii_lower_char(c: char) -> char {
    if 65 <= (c as u32) <= 90 {
        ((c as u32) + 32) as char
    } else {
        c
    }
}

/// An ASCII lower-case letter in upper case; any other character as it is.
pub open spec fn ascii_upper_char(c: char) -> char {
    if 97 <= (c as u32) <= 122 {
        ((c as u32) - 32) as char
    } else {
        c
    }
}

/// `s` with its ASCII letters in lower case.
pub open spec fn ascii_lower(s: Seq<char>) -> Seq<char> {
    s.map_values(|c: char| ascii_lower_char(c))
}

/// `s` with its ASCII letters in upper case.
pub open spec fn ascii_upper(s: Seq<char>) -> Seq<char> {
    s.map_values(|c: char| ascii_upper_char(c))
}

/// Lower-casing ASCII text twice gives what lower-casing it once gives,
/// and the result is ASCII text.
pub proof fn lemma_ascii_lower_idempotent(s: Seq<char>)
    requires
        is_ascii_text(s),
    ensures
        is_ascii_text(ascii_lower(s)),
        ascii_lower(ascii_lower(s)) == ascii_lower(s),
{
    assert forall|i: int| 0 <= i < ascii_lower(s).len() implies (#[trigger] ascii_lower(s)[i] as u32) < 128 by {
        assert((s[i] as u32) < 128);
    }
    assert(ascii_lower(ascii_lower(s)) =~= ascii_lower(s));
}

/// Whether every byte of `b` is ASCII.
pub open spec fn is_ascii_bytes(b: Seq<u8>) -> bool {
    forall|i: int| 0 <= i < b.len() ==> #[trigger] b[i] < 128
}

/// ASCII bytes read as the characters they encode.
pub open spec fn ascii_chars(b: Seq<u8>) -> Seq<char> {
    b.map_values(|x: u8| x as char)
}

/// ASCII bytes are valid UTF-8, and decode to one character per byte.
pub proof fn lemma_ascii_decode(b: Seq<u8>)
    requires
        is_ascii_bytes(b),
    ensures
        valid_utf8(b),
        decode_utf8(b) == ascii_chars(b),
    decreases b.len(),
{
    if b.len() > 0 {
        let x = b[0];
        assert(x < 128);
        assert(x & 0x7f == x) by (bit_vector)
            requires
                x < 128u8,
        ;
        assert(pop_first_scalar(b) =~= b.drop_first());
        assert(is_ascii_bytes(b.drop_first())) by {
            assert forall|i: int| 0 <= i < b.drop_first().len() implies #[trigger] b.drop_first()[i] < 128 by {
                assert(b.drop_first()[i] == b[i + 1]);
            }
        }
        lemma_ascii_decode(b.drop_first());
        assert(ascii_chars(b) =~= seq![x as char] + ascii_chars(b.drop_first()));
    }
}

/// Whether every character of `s` satisfies `p`.
pub open spec fn all_chars(s: Seq<char>, p: spec_fn(char) -> bool) -> bool {
    forall|i: int| 0 <= i < s.len() ==> p(#[trigger] s[i])
}

proof fn lemma_strip_start_in_props(s: Seq<char>, set: Seq<char>, p: spec_fn(char) -> bool)
    ensures
        all_chars(s, p) ==> all_chars(strip_start_in(s, set), p),
        strip_start_in(s, set).len() > 0 ==> !set.contains(strip_start_in(s, set)[0]),
    decreases s.len(),
{
    if s.len() > 0 && set.contains(s[0]) {
        lemma_strip_start_in_props(s.drop_first(), set, p);
        if all_chars(s, p) {
            assert forall|i: int| 0 <= i < s.drop_first().len() implies p(#[trigger] s.drop_first()[i]) by {
                assert(s.drop_first()[i] == s[i + 1]);
            }
        }
    }
}

proof fn lemma_strip_end_in_props(s: Seq<char>, set: Seq<char>)
    ensures
        strip_end_in(s, set).len() <= s.len(),
        forall|i: int| 0 <= i < strip_end_in(s, set).len() ==> #[trigger] strip_end_in(s, set)[i] == s[i],
        strip_end_in(s, set).len() > 0 ==> !set.contains(strip_end_in(s, set).last()),
    decreases s.len(),
{
    if s.len() > 0 && set.contains(s.last()) {
        lemma_strip_end_in_props(s.drop_last(), set);
    }
}

/// What stripping the characters of `set` from both ends keeps: a property
/// every character had, and no character of `set` at either end.
pub proof fn lemma_strip_in_props(s: Seq<char>, set: Seq<char>, p: spec_fn(char) -> bool)
    ensures
        all_chars(s, p) ==> all_chars(strip_in(s, set), p),
        strip_in(s, set).len() > 0 ==> !set.contains(strip_in(s, set)[0]) && !set.contains(
            strip_in(s, set).last(),
        ),
{
    let t = strip_start_in(s, set);
    lemma_strip_start_in_props(s, set, p);
    lemma_strip_end_in_props(t, set);
    let r = strip_in(s, set);
    if r.len() > 0 {
        assert(r[0] == t[0]);
    }
    if all_chars(s, p) {
        assert forall|i: int| 0 <= i < r.len() implies p(#[trigger] r[i]) by {
            assert(r[i] == t[i]);
        }
    }
}

/// Calls `str::to_uppercase`; on ASCII text it maps `a`..`z` to `A`..`Z`
/// and keeps every other character (the Unicode case mapping of ASCII
/// letters), and beyond ASCII its mapping is left to the name `upper_case`.
#[verifier::external_body]
pub(crate) fn to_upper(s: &str) -> (r: String)
    ensures
        r@ == upper_case(s@),
        is_ascii_text(s@) ==> r@ == ascii_upper(s@),
{
    s.to_uppercase()
}

/// Calls `str::to_lowercase`; on ASCII text it maps `A`..`Z` to `a`..`z`
/// and keeps every other character (the Unicode case mapping of ASCII
/// letters), and beyond ASCII its mapping is left to the name `lower_case`.
#[verifier::external_body]
pub(crate) fn to_lower(s: &str) -> (r: String)
    ensures
        r@ == lower_case(s@),
        is_ascii_text(s@) ==> r@ == ascii_lower(s@),
{
    s.to_lowercase()
}

} // verus!
