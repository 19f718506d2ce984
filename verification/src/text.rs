//! Text primitives.
//!
//! Everything the toolkit reads or prints is text, so the questions asked of it (where does a
//! separator stand, what is left once the blanks are trimmed, what does a replacement give) are
//! answered here once, over the sequence of characters that a string holds.
use vstd::prelude::*;

verus! {

// ---- characters --------------------------------------------------------------------------------

/// The characters with the Unicode property `White_Space`.
pub open spec fn is_white(c: char) -> bool {
    ||| '\u{9}' <= c <= '\u{d}'
    ||| c == ' '
    ||| c == '\u{85}'
    ||| c == '\u{a0}'
    ||| c == '\u{1680}'
    ||| '\u{2000}' <= c <= '\u{200a}'
    ||| c == '\u{2028}'
    ||| c == '\u{2029}'
    ||| c == '\u{202f}'
    ||| c == '\u{205f}'
    ||| c == '\u{3000}'
}

pub fn white(c: char) -> (r: bool)
    ensures
        r == is_white(c),
{
    ('\u{9}' <= c && c <= '\u{d}') || c == ' ' || c == '\u{85}' || c == '\u{a0}' || c == '\u{1680}'
        || ('\u{2000}' <= c && c <= '\u{200a}') || c == '\u{2028}' || c == '\u{2029}' || c
        == '\u{202f}' || c == '\u{205f}' || c == '\u{3000}'
}

pub open spec fn is_digit(c: char) -> bool {
    '0' <= c <= '9'
}

pub fn digit(c: char) -> (r: bool)
    ensures
        r == is_digit(c),
{
    '0' <= c && c <= '9'
}

pub open spec fn is_letter(c: char) -> bool {
    'a' <= c <= 'z' || 'A' <= c <= 'Z'
}

pub fn letter(c: char) -> (r: bool)
    ensures
        r == is_letter(c),
{
    ('a' <= c && c <= 'z') || ('A' <= c && c <= 'Z')
}

/// An ASCII capital as its small letter; any other character as it is.
pub open spec fn ascii_lower(c: char) -> char {
    if 'A' <= c <= 'Z' {
        ((c as u8 + 32) as u8) as char
    } else {
        c
    }
}

pub fn lower_char(c: char) -> (r: char)
    ensures
        r == ascii_lower(c),
{
    if 'A' <= c && c <= 'Z' {
        (c as u8 + 32) as char
    } else {
        c
    }
}

// ---- strings and their characters --------------------------------------------------------------

/// `String::push` appends one character.
pub assume_specification[ String::push ](s: &mut String, ch: char)
    ensures
        final(s)@ == old(s)@.push(ch),
;

/// The two texts agree but for the case of ASCII letters.
pub open spec fn alike(a: Seq<char>, b: Seq<char>) -> bool {
    &&& a.len() == b.len()
    &&& forall|i: int| 0 <= i < a.len() ==> ascii_lower(#[trigger] a[i]) == ascii_lower(b[i])
}

pub fn equal_ignoring_case(a: &str, b: &str) -> (r: bool)
    ensures
        r == alike(a@, b@),
{
    let x = chars_of(a);
    let y = chars_of(b);
    if x.len() != y.len() {
        return false;
    }
    for i in 0..x.len()
        invariant
            x@ == a@,
            y@ == b@,
            x@.len() == y@.len(),
            forall|k: int| 0 <= k < i ==> ascii_lower(#[trigger] a@[k]) == ascii_lower(b@[k]),
    {
        if lower_char(x[i]) != lower_char(y[i]) {
            assert(ascii_lower(a@[i as int]) != ascii_lower(b@[i as int]));
            return false;
        }
    }
    true
}

pub fn chars_of(s: &str) -> (r: Vec<char>)
    ensures
        r@ == s@,
{
    let mut out: Vec<char> = Vec::new();
    for c in it: s.chars()
        invariant
            it.seq() == s@,
            out@ == s@.take(it.index() as int),
    {
        out.push(c);
    }
    assert(s@.take(s@.len() as int) == s@);
    out
}

pub fn string_of(c: &[char]) -> (r: String)
    ensures
        r@ == c@,
{
    let mut out = String::new();
    for i in 0..c.len()
        invariant
            out@ == c@.take(i as int),
    {
        out.push(c[i]);
    }
    assert(c@.take(c@.len() as int) == c@);
    out
}

/// Whether two strings hold the same characters.
pub fn same(a: &str, b: &str) -> (r: bool)
    ensures
        r == (a@ == b@),
{
    let x = a.as_bytes();
    let y = b.as_bytes();
    proof {
        vstd::utf8::encode_utf8_decode_utf8(a@);
        vstd::utf8::encode_utf8_decode_utf8(b@);
    }
    if x.len() != y.len() {
        return false;
    }
    for i in 0..x.len()
        invariant
            x@.len() == y@.len(),
            x@ == vstd::utf8::encode_utf8(a@),
            y@ == vstd::utf8::encode_utf8(b@),
            forall|j: int| 0 <= j < i ==> x@[j] == y@[j],
    {
        if x[i] != y[i] {
            assert(x@ != y@);
            return false;
        }
    }
    assert(x@ =~= y@);
    true
}

/// The texts of a list of strings.
pub open spec fn texts(v: Seq<String>) -> Seq<Seq<char>> {
    v.map_values(|s: String| s@)
}

pub proof fn lemma_texts_push(v: Seq<String>, s: String)
    ensures
        texts(v.push(s)) == texts(v).push(s@),
{
    assert(texts(v.push(s)) =~= texts(v).push(s@));
}

/// The texts of borrowed strings.
pub open spec fn str_texts(v: Seq<&str>) -> Seq<Seq<char>> {
    v.map_values(|s: &str| s@)
}

pub fn owned(v: &[&str]) -> (r: Vec<String>)
    ensures
        texts(r@) == str_texts(v@),
{
    let mut out: Vec<String> = Vec::new();
    for i in 0..v.len()
        invariant
            out@.len() == i,
            forall|j: int| 0 <= j < i ==> #[trigger] out@[j]@ == v@[j]@,
    {
        out.push(v[i].to_string());
    }
    assert(texts(out@) =~= str_texts(v@));
    out
}

/// The text of an optional string.
pub open spec fn opt_text(v: Option<String>) -> Option<Seq<char>> {
    match v {
        Some(s) => Some(s@),
        None => None,
    }
}

/// The text of an optional borrowed string.
pub open spec fn opt_str(v: Option<&str>) -> Option<Seq<char>> {
    match v {
        Some(s) => Some(s@),
        None => None,
    }
}

pub fn borrowed(v: &Option<String>) -> (r: Option<&str>)
    ensures
        opt_str(r) == opt_text(*v),
{
    match v {
        Some(s) => Some(s.as_str()),
        None => None,
    }
}

pub fn copy_opt(v: &Option<String>) -> (r: Option<String>)
    ensures
        opt_text(r) == opt_text(*v),
{
    match v {
        Some(s) => Some(s.clone()),
        None => None,
    }
}

pub fn copy_of(v: &[String]) -> (r: Vec<String>)
    ensures
        texts(r@) == texts(v@),
{
    let mut out: Vec<String> = Vec::new();
    for i in 0..v.len()
        invariant
            texts(out@) == texts(v@.take(i as int)),
    {
        out.push(v[i].clone());
        assert(texts(v@.take(i + 1)) =~= texts(v@.take(i as int)).push(v@[i as int]@));
        assert(texts(out@) =~= texts(v@.take(i as int)).push(v@[i as int]@));
    }
    assert(v@.take(v@.len() as int) == v@);
    out
}

/// Whether `items` holds the text `t`.
pub open spec fn lists(items: Seq<Seq<char>>, t: Seq<char>) -> bool {
    exists|i: int| 0 <= i < items.len() && items[i] == t
}

pub fn listed(items: &[String], t: &str) -> (r: bool)
    ensures
        r == lists(texts(items@), t@),
{
    for i in 0..items.len()
        invariant
            forall|k: int| 0 <= k < i ==> #[trigger] texts(items@)[k] != t@,
    {
        if same(items[i].as_str(), t) {
            assert(texts(items@)[i as int] == t@);
            return true;
        }
    }
    false
}

/// `str::to_lowercase`: the text with each character replaced by what Unicode's lowercase mapping
/// gives for it where it stands.
pub uninterp spec fn lowercase(s: Seq<char>) -> Seq<char>;

/// `str::to_lowercase` depends on the text alone; on a text of ASCII characters it turns the
/// capitals into small letters and leaves every other character as it is.
pub assume_specification[ str::to_lowercase ](s: &str) -> (r: String)
    ensures
        r@ == lowercase(s@),
        vstd::utf8::is_ascii_chars(s@) ==> r@ == s@.map_values(|c: char| ascii_lower(c)),
;

/// The text in lower case. ASCII capitals become small letters; beyond ASCII, Unicode's mapping is
/// what [`lowercase`] names.
pub open spec fn lowered(s: Seq<char>) -> Seq<char> {
    if vstd::utf8::is_ascii_chars(s) {
        s.map_values(|c: char| ascii_lower(c))
    } else {
        lowercase(s)
    }
}

pub fn lower(s: &str) -> (r: String)
    ensures
        r@ == lowered(s@),
{
    s.to_lowercase()
}

/// The `Debug` notation of a string: in double quotes, with what cannot be printed escaped.
pub uninterp spec fn debug_notation(s: Seq<char>) -> Seq<char>;

/// Printable ASCII other than the double quote and the backslash.
pub open spec fn is_plain(s: Seq<char>) -> bool {
    forall|i: int| 0 <= i < s.len() ==> ' ' <= #[trigger] s[i] <= '~' && s[i] != '"' && s[i] != '\\'
}

/// `<str as Debug>::fmt` through `format!`: the result depends on the text alone, and a text of
/// printable ASCII characters without quotes and backslashes comes out between two quotes.
#[verifier::external_body]
fn debug_text(s: &str) -> (r: String)
    ensures
        r@ == debug_notation(s@),
        is_plain(s@) ==> r@ == seq!['"'] + s@ + seq!['"'],
{
    format!("{:?}", s)
}

/// A text as it is quoted in messages: plain text between two quotes, any other as
/// [`debug_notation`] names it.
pub open spec fn notation(s: Seq<char>) -> Seq<char> {
    if is_plain(s) {
        seq!['"'] + s + seq!['"']
    } else {
        debug_notation(s)
    }
}

pub fn quote(s: &str) -> (r: String)
    ensures
        r@ == notation(s@),
{
    debug_text(s)
}

// ---- trimming ----------------------------------------------------------------------------------

pub open spec fn trimmed_start(s: Seq<char>) -> Seq<char>
    decreases s.len(),
{
    if s.len() > 0 && is_white(s[0]) {
        trimmed_start(s.skip(1))
    } else {
        s
    }
}

pub open spec fn trimmed_end(s: Seq<char>) -> Seq<char>
    decreases s.len(),
{
    if s.len() > 0 && is_white(s.last()) {
        trimmed_end(s.drop_last())
    } else {
        s
    }
}

/// The text without the blanks at its two ends.
pub open spec fn trimmed(s: Seq<char>) -> Seq<char> {
    trimmed_end(trimmed_start(s))
}

/// A text of blanks alone, or no text at all.
pub open spec fn is_blank(s: Seq<char>) -> bool {
    trimmed(s).len() == 0
}

/// A text that neither starts nor ends with a blank is left alone.
pub proof fn lemma_trimmed_is_fixed(s: Seq<char>)
    requires
        s.len() > 0 ==> !is_white(s[0]) && !is_white(s.last()),
    ensures
        trimmed(s) == s,
{
}

proof fn lemma_trimmed_start_shape(s: Seq<char>)
    ensures
        trimmed_start(s).len() > 0 ==> !is_white(trimmed_start(s)[0]),
    decreases s.len(),
{
    if s.len() > 0 && is_white(s[0]) {
        lemma_trimmed_start_shape(s.skip(1));
    }
}

proof fn lemma_trimmed_end_shape(s: Seq<char>)
    ensures
        trimmed_end(s).len() > 0 ==> !is_white(trimmed_end(s).last()) && trimmed_end(s)[0] == s[0],
    decreases s.len(),
{
    if s.len() > 0 && is_white(s.last()) {
        lemma_trimmed_end_shape(s.drop_last());
    }
}

/// Trimming what has been trimmed changes nothing.
pub proof fn lemma_trimmed_twice(s: Seq<char>)
    ensures
        trimmed(trimmed(s)) == trimmed(s),
{
    lemma_trimmed_start_shape(s);
    lemma_trimmed_end_shape(trimmed_start(s));
    lemma_trimmed_is_fixed(trimmed(s));
}

/// What is trimmed is part of the text: its end without the blanks in front, and the front of that.
pub proof fn lemma_trimmed_is_inside(s: Seq<char>)
    ensures
        trimmed_start(s).len() <= s.len(),
        trimmed_start(s) == s.skip(s.len() - trimmed_start(s).len()),
        trimmed(s).len() <= trimmed_start(s).len(),
        trimmed(s) == trimmed_start(s).take(trimmed(s).len() as int),
        trimmed(trimmed_start(s)) == trimmed(s),
{
    lemma_trimmed_start_is_inside(s);
    lemma_trimmed_end_is_inside(trimmed_start(s));
    lemma_trimmed_start_shape(s);
}

proof fn lemma_trimmed_start_is_inside(s: Seq<char>)
    ensures
        trimmed_start(s).len() <= s.len(),
        trimmed_start(s) == s.skip(s.len() - trimmed_start(s).len()),
    decreases s.len(),
{
    if s.len() > 0 && is_white(s[0]) {
        lemma_trimmed_start_is_inside(s.skip(1));
        let n = trimmed_start(s).len();
        assert(s.skip(1).skip(s.len() - 1 - n) =~= s.skip(s.len() - n));
    } else {
        assert(s.skip(0) =~= s);
    }
}

proof fn lemma_trimmed_end_is_inside(s: Seq<char>)
    ensures
        trimmed_end(s).len() <= s.len(),
        trimmed_end(s) == s.take(trimmed_end(s).len() as int),
    decreases s.len(),
{
    if s.len() > 0 && is_white(s.last()) {
        lemma_trimmed_end_is_inside(s.drop_last());
        let n = trimmed_end(s).len();
        assert(s.drop_last().take(n as int) =~= s.take(n as int));
    } else {
        assert(s.take(s.len() as int) =~= s);
    }
}

/// Blanks are no letters: texts that agree but for case do so without the blanks around them.
pub proof fn lemma_trimmed_in_any_case(a: Seq<char>, b: Seq<char>)
    requires
        alike(a, b),
    ensures
        alike(trimmed(a), trimmed(b)),
{
    lemma_trimmed_start_in_any_case(a, b);
    lemma_trimmed_end_in_any_case(trimmed_start(a), trimmed_start(b));
}

proof fn lemma_trimmed_start_in_any_case(a: Seq<char>, b: Seq<char>)
    requires
        alike(a, b),
    ensures
        alike(trimmed_start(a), trimmed_start(b)),
    decreases a.len(),
{
    if a.len() > 0 {
        assert(ascii_lower(a[0]) == ascii_lower(b[0]));
        assert(is_white(a[0]) == is_white(b[0]));
        assert forall|i: int| 0 <= i < a.len() - 1 implies ascii_lower(#[trigger] a.skip(1)[i])
            == ascii_lower(b.skip(1)[i]) by {
            assert(ascii_lower(a[i + 1]) == ascii_lower(b[i + 1]));
        }
        lemma_trimmed_start_in_any_case(a.skip(1), b.skip(1));
    }
}

proof fn lemma_trimmed_end_in_any_case(a: Seq<char>, b: Seq<char>)
    requires
        alike(a, b),
    ensures
        alike(trimmed_end(a), trimmed_end(b)),
    decreases a.len(),
{
    if a.len() > 0 {
        let n = a.len() - 1;
        assert(ascii_lower(a[n]) == ascii_lower(b[n]));
        assert(is_white(a[n]) == is_white(b[n]));
        assert forall|i: int| 0 <= i < n implies ascii_lower(#[trigger] a.drop_last()[i])
            == ascii_lower(b.drop_last()[i]) by {
            assert(ascii_lower(a[i]) == ascii_lower(b[i]));
        }
        lemma_trimmed_end_in_any_case(a.drop_last(), b.drop_last());
    }
}

/// A character behind a text that is no blank keeps the blanks in front of it.
pub proof fn lemma_trimmed_before(s: Seq<char>, c: char)
    requires
        !is_white(c),
    ensures
        trimmed(s.push(c)) == trimmed_start(s).push(c),
    decreases s.len(),
{
    if s.len() > 0 && is_white(s[0]) {
        lemma_trimmed_before(s.skip(1), c);
        assert(s.push(c).skip(1) =~= s.skip(1).push(c));
    }
}

pub fn skip_white(s: &[char]) -> (r: &[char])
    ensures
        r@ == trimmed_start(s@),
{
    let mut i: usize = 0;
    assert(s@.skip(0) == s@);
    while i < s.len() && white(s[i])
        invariant
            i <= s.len(),
            trimmed_start(s@.skip(i as int)) == trimmed_start(s@),
        decreases s.len() - i,
    {
        assert(s@.skip(i as int).skip(1) == s@.skip(i + 1));
        i = i + 1;
    }
    let r = vstd::slice::slice_subrange(s, i, s.len());
    assert(r@ == s@.skip(i as int));
    r
}

pub fn trim_chars(s: &[char]) -> (r: &[char])
    ensures
        r@ == trimmed(s@),
{
    let t = skip_white(s);
    let mut n: usize = t.len();
    assert(t@.take(n as int) == t@);
    while n > 0 && white(t[n - 1])
        invariant
            n <= t.len(),
            trimmed_end(t@.take(n as int)) == trimmed_end(t@),
        decreases n,
    {
        assert(t@.take(n as int).drop_last() == t@.take(n - 1));
        n = n - 1;
    }
    let r = vstd::slice::slice_subrange(t, 0, n);
    assert(r@ == t@.take(n as int));
    r
}

pub fn trim(s: &str) -> (r: String)
    ensures
        r@ == trimmed(s@),
{
    let c = chars_of(s);
    string_of(trim_chars(&c))
}

pub fn blank(s: &str) -> (r: bool)
    ensures
        r == is_blank(s@),
{
    let c = chars_of(s);
    trim_chars(&c).len() == 0
}

pub open spec fn stripped_start(s: Seq<char>, c: char) -> Seq<char>
    decreases s.len(),
{
    if s.len() > 0 && s[0] == c {
        stripped_start(s.skip(1), c)
    } else {
        s
    }
}

pub open spec fn stripped_end(s: Seq<char>, c: char) -> Seq<char>
    decreases s.len(),
{
    if s.len() > 0 && s.last() == c {
        stripped_end(s.drop_last(), c)
    } else {
        s
    }
}

/// The text without the `c`s at its two ends.
pub open spec fn stripped(s: Seq<char>, c: char) -> Seq<char> {
    stripped_end(stripped_start(s, c), c)
}

pub fn strip(s: &[char], c: char) -> (r: &[char])
    ensures
        r@ == stripped(s@, c),
{
    let mut i: usize = 0;
    assert(s@.skip(0) == s@);
    while i < s.len() && s[i] == c
        invariant
            i <= s.len(),
            stripped_start(s@.skip(i as int), c) == stripped_start(s@, c),
        decreases s.len() - i,
    {
        assert(s@.skip(i as int).skip(1) == s@.skip(i + 1));
        i = i + 1;
    }
    let t = vstd::slice::slice_subrange(s, i, s.len());
    assert(t@ == s@.skip(i as int));
    let mut n: usize = t.len();
    assert(t@.take(n as int) == t@);
    while n > 0 && t[n - 1] == c
        invariant
            n <= t.len(),
            stripped_end(t@.take(n as int), c) == stripped_end(t@, c),
        decreases n,
    {
        assert(t@.take(n as int).drop_last() == t@.take(n - 1));
        n = n - 1;
    }
    let r = vstd::slice::slice_subrange(t, 0, n);
    assert(r@ == t@.take(n as int));
    r
}

// ---- searching ---------------------------------------------------------------------------------

/// `pat` stands in `s` at position `i`.
pub open spec fn occurs_at(s: Seq<char>, pat: Seq<char>, i: int) -> bool {
    0 <= i && i + pat.len() <= s.len() && s.subrange(i, i + pat.len()) == pat
}

/// `pat` stands somewhere in `s`.
pub open spec fn has(s: Seq<char>, pat: Seq<char>) -> bool {
    exists|i: int| occurs_at(s, pat, i)
}

pub open spec fn begins(s: Seq<char>, pat: Seq<char>) -> bool {
    occurs_at(s, pat, 0)
}

pub open spec fn finishes(s: Seq<char>, pat: Seq<char>) -> bool {
    occurs_at(s, pat, s.len() - pat.len())
}

pub fn at(s: &[char], pat: &[char], i: usize) -> (r: bool)
    ensures
        r == occurs_at(s@, pat@, i as int),
{
    if i > s.len() || pat.len() > s.len() - i {
        return false;
    }
    for k in 0..pat.len()
        invariant
            i + pat.len() <= s.len(),
            forall|j: int| 0 <= j < k ==> s@[i + j] == pat@[j],
    {
        if s[i + k] != pat[k] {
            assert(s@.subrange(i as int, i + pat@.len())[k as int] != pat@[k as int]);
            return false;
        }
    }
    assert(s@.subrange(i as int, i + pat@.len()) =~= pat@);
    true
}

pub fn chars_contain(s: &[char], pat: &[char]) -> (r: bool)
    ensures
        r == has(s@, pat@),
{
    if pat.len() > s.len() {
        return false;
    }
    let last: usize = s.len() - pat.len();
    let mut i: usize = 0;
    while i <= last
        invariant
            last == s.len() - pat.len(),
            i <= last + 1,
            last < usize::MAX || i <= last,
            forall|j: int| 0 <= j < i ==> !occurs_at(s@, pat@, j),
        decreases last + 1 - i,
    {
        if at(s, pat, i) {
            return true;
        }
        if i == last {
            return false;
        }
        i = i + 1;
    }
    false
}

pub fn contains(s: &str, pat: &str) -> (r: bool)
    ensures
        r == has(s@, pat@),
{
    let a = chars_of(s);
    let b = chars_of(pat);
    chars_contain(&a, &b)
}

pub fn starts_with(s: &str, pat: &str) -> (r: bool)
    ensures
        r == begins(s@, pat@),
{
    let a = chars_of(s);
    let b = chars_of(pat);
    at(&a, &b, 0)
}

pub fn ends_with(s: &str, pat: &str) -> (r: bool)
    ensures
        r == finishes(s@, pat@),
{
    let a = chars_of(s);
    let b = chars_of(pat);
    if b.len() > a.len() {
        return false;
    }
    at(&a, &b, a.len() - b.len())
}

/// The first position at which `c` stands, or the length when it stands nowhere.
pub open spec fn first_of(s: Seq<char>, c: char) -> int
    decreases s.len(),
{
    if s.len() == 0 || s[0] == c {
        0
    } else {
        1 + first_of(s.skip(1), c)
    }
}

pub proof fn lemma_first_of(s: Seq<char>, c: char)
    ensures
        0 <= first_of(s, c) <= s.len(),
        first_of(s, c) < s.len() ==> s[first_of(s, c)] == c,
        forall|j: int| 0 <= j < first_of(s, c) ==> s[j] != c,
    decreases s.len(),
{
    if s.len() > 0 && s[0] != c {
        lemma_first_of(s.skip(1), c);
        assert forall|j: int| 0 <= j < first_of(s, c) implies s[j] != c by {
            if j > 0 {
                assert(s.skip(1)[j - 1] == s[j]);
            }
        }
    }
}

pub fn find(s: &[char], c: char) -> (r: usize)
    ensures
        r as int == first_of(s@, c),
        r <= s@.len(),
{
    let mut i: usize = 0;
    assert(s@.skip(0) == s@);
    while i < s.len() && s[i] != c
        invariant
            i <= s.len(),
            first_of(s@, c) == i + first_of(s@.skip(i as int), c),
        decreases s.len() - i,
    {
        assert(s@.skip(i as int).skip(1) == s@.skip(i + 1));
        i = i + 1;
    }
    i
}

/// What stands before and after the first `c`, when there is one.
pub open spec fn split_at_first(s: Seq<char>, c: char) -> Option<(Seq<char>, Seq<char>)> {
    let i = first_of(s, c);
    if i < s.len() {
        Some((s.take(i), s.skip(i + 1)))
    } else {
        None
    }
}

pub fn split_once(s: &[char], c: char) -> (r: Option<(&[char], &[char])>)
    ensures
        match r {
            Some(p) => split_at_first(s@, c) == Some((p.0@, p.1@)),
            None => split_at_first(s@, c) is None,
        },
{
    let i = find(s, c);
    if i < s.len() {
        let a = vstd::slice::slice_subrange(s, 0, i);
        let b = vstd::slice::slice_subrange(s, i + 1, s.len());
        assert(a@ == s@.take(i as int));
        assert(b@ == s@.skip(i + 1));
        Some((a, b))
    } else {
        None
    }
}

// ---- cutting and joining -----------------------------------------------------------------------

/// The pieces of `s` between the occurrences of `c`: one more than there are occurrences.
pub open spec fn pieces(s: Seq<char>, c: char) -> Seq<Seq<char>>
    decreases s.len(),
{
    match split_at_first(s, c) {
        Some((head, tail)) => if tail.len() < s.len() {
            seq![head] + pieces(tail, c)
        } else {
            seq![s]
        },
        None => seq![s],
    }
}

pub fn split(s: &str, c: char) -> (r: Vec<String>)
    ensures
        texts(r@) == pieces(s@, c),
{
    let all = chars_of(s);
    let mut out: Vec<String> = Vec::new();
    let mut i: usize = 0;
    assert(all@.skip(0) == all@);
    assert(texts(out@) + pieces(s@, c) =~= pieces(s@, c));
    loop
        invariant
            all@ == s@,
            i <= all.len(),
            pieces(s@, c) == texts(out@) + pieces(all@.skip(i as int), c),
        decreases all.len() - i,
    {
        let rest = vstd::slice::slice_subrange(all.as_slice(), i, all.len());
        assert(rest@ == all@.skip(i as int));
        let ghost was = texts(out@);
        match split_once(rest, c) {
            Some((head, tail)) => {
                let piece = string_of(head);
                proof {
                    lemma_first_of(rest@, c);
                    lemma_texts_push(out@, piece);
                    assert(was + (seq![head@] + pieces(tail@, c)) =~= was.push(head@) + pieces(
                        tail@,
                        c,
                    ));
                    assert(tail@ == all@.skip(i + head@.len() + 1));
                }
                i = i + head.len() + 1;
                out.push(piece);
            },
            None => {
                let piece = string_of(rest);
                proof {
                    lemma_texts_push(out@, piece);
                    assert(was + seq![rest@] =~= was.push(rest@));
                }
                out.push(piece);
                return out;
            },
        }
    }
}

/// The pieces joined by `sep`.
pub open spec fn joined(v: Seq<Seq<char>>, sep: Seq<char>) -> Seq<char>
    decreases v.len(),
{
    if v.len() == 0 {
        Seq::empty()
    } else if v.len() == 1 {
        v[0]
    } else {
        joined(v.drop_last(), sep) + sep + v.last()
    }
}

pub fn join(v: &[String], sep: &str) -> (r: String)
    ensures
        r@ == joined(texts(v@), sep@),
{
    let mut out = String::new();
    for i in 0..v.len()
        invariant
            out@ == joined(texts(v@.take(i as int)), sep@),
    {
        let ghost next = texts(v@.take(i + 1));
        assert(next.drop_last() =~= texts(v@.take(i as int)));
        assert(next.last() == v@[i as int]@);
        if i > 0 {
            out.append(sep);
        }
        out.append(v[i].as_str());
        if i == 0 {
            assert(out@ =~= v@[0]@);
        }
    }
    assert(v@.take(v@.len() as int) == v@);
    out
}

/// The lines, each indented by two blanks and ended by a line feed.
pub open spec fn indented(v: Seq<Seq<char>>) -> Seq<char>
    decreases v.len(),
{
    if v.len() == 0 {
        Seq::empty()
    } else {
        indented(v.drop_last()) + "  "@ + v.last() + "\n"@
    }
}

pub fn indent(v: &[String]) -> (r: String)
    ensures
        r@ == indented(texts(v@)),
{
    let mut out = String::new();
    for i in 0..v.len()
        invariant
            out@ == indented(texts(v@.take(i as int))),
    {
        let ghost next = texts(v@.take(i + 1));
        assert(next.drop_last() =~= texts(v@.take(i as int)));
        assert(next.last() == v@[i as int]@);
        out.append("  ");
        out.append(v[i].as_str());
        out.append("\n");
    }
    assert(v@.take(v@.len() as int) == v@);
    out
}

/// `s` with every occurrence of `from`, read from the left and without overlap, made `to`.
pub open spec fn replaced(s: Seq<char>, from: Seq<char>, to: Seq<char>) -> Seq<char>
    decreases s.len(),
{
    if s.len() == 0 || from.len() == 0 {
        s
    } else if begins(s, from) {
        to + replaced(s.skip(from.len() as int), from, to)
    } else {
        seq![s[0]] + replaced(s.skip(1), from, to)
    }
}

pub fn replace(s: &str, from: &str, to: &str) -> (r: String)
    requires
        from@.len() > 0,
    ensures
        r@ == replaced(s@, from@, to@),
{
    let a = chars_of(s);
    let f = chars_of(from);
    let mut out = String::new();
    let mut i: usize = 0;
    assert(a@.skip(0) == a@);
    while i < a.len()
        invariant
            i <= a.len(),
            a@ == s@,
            f@ == from@,
            f@.len() > 0,
            replaced(s@, from@, to@) == out@ + replaced(a@.skip(i as int), from@, to@),
        decreases a.len() - i,
    {
        let ghost before = out@;
        let ghost rest = a@.skip(i as int);
        if at(&a, &f, i) {
            assert(rest.subrange(0, f@.len() as int) == a@.subrange(i as int, i + f@.len()));
            assert(rest.skip(f@.len() as int) == a@.skip(i + f@.len()));
            out.append(to);
            i = i + f.len();
            assert(before + (to@ + replaced(a@.skip(i as int), from@, to@)) =~= out@ + replaced(
                a@.skip(i as int),
                from@,
                to@,
            ));
        } else {
            assert(begins(rest, f@) ==> occurs_at(a@, f@, i as int)) by {
                if begins(rest, f@) {
                    assert(rest.subrange(0, f@.len() as int) == a@.subrange(i as int, i + f@.len()));
                }
            }
            assert(rest.skip(1) == a@.skip(i + 1));
            out.push(a[i]);
            i = i + 1;
            assert(before + (seq![rest[0]] + replaced(a@.skip(i as int), from@, to@)) =~= out@
                + replaced(a@.skip(i as int), from@, to@));
        }
    }
    assert(a@.skip(i as int) =~= Seq::<char>::empty());
    assert(out@ + Seq::<char>::empty() =~= out@);
    out
}

// ---- numbers -----------------------------------------------------------------------------------

pub open spec fn digit_char(n: int) -> char {
    (48 + n) as char
}

/// A number in decimal notation.
pub open spec fn decimal(n: nat) -> Seq<char>
    decreases n,
{
    if n < 10 {
        seq![digit_char(n as int)]
    } else {
        decimal(n / 10).push(digit_char((n % 10) as int))
    }
}

pub fn decimal_text(n: u64) -> (r: String)
    ensures
        r@ == decimal(n as nat),
    decreases n,
{
    if n < 10 {
        let mut out = String::new();
        out.push((48 + n as u8) as char);
        assert(out@ =~= seq![digit_char(n as int)]);
        out
    } else {
        let mut out = decimal_text(n / 10);
        let d: u8 = (n % 10) as u8;
        out.push((48 + d) as char);
        out
    }
}

pub fn count_text(n: usize) -> (r: String)
    ensures
        r@ == decimal(n as nat),
{
    decimal_text(n as u64)
}

/// A signed number in decimal notation.
pub open spec fn signed(n: int) -> Seq<char> {
    if n < 0 {
        seq!['-'] + decimal((-n) as nat)
    } else {
        decimal(n as nat)
    }
}

pub fn signed_text(n: i32) -> (r: String)
    ensures
        r@ == signed(n as int),
{
    if n < 0 {
        let mut out = String::new();
        out.push('-');
        let m: u64 = (-(n as i64)) as u64;
        let d = decimal_text(m);
        out.append(d.as_str());
        assert(out@ =~= signed(n as int));
        out
    } else {
        decimal_text(n as u64)
    }
}

// ---- order -------------------------------------------------------------------------------------

/// `a` stands before `b` in the dictionary order of the characters' code points.
pub open spec fn before(a: Seq<char>, b: Seq<char>) -> bool
    decreases a.len(),
{
    if b.len() == 0 {
        false
    } else if a.len() == 0 {
        true
    } else if a[0] != b[0] {
        a[0] < b[0]
    } else {
        before(a.skip(1), b.skip(1))
    }
}

pub proof fn lemma_before_irreflexive(a: Seq<char>)
    ensures
        !before(a, a),
    decreases a.len(),
{
    if a.len() > 0 {
        lemma_before_irreflexive(a.skip(1));
    }
}

pub proof fn lemma_before_transitive(a: Seq<char>, b: Seq<char>, c: Seq<char>)
    requires
        before(a, b),
        before(b, c),
    ensures
        before(a, c),
    decreases a.len(),
{
    if a.len() > 0 && a[0] == b[0] && b[0] == c[0] {
        lemma_before_transitive(a.skip(1), b.skip(1), c.skip(1));
    }
}

pub proof fn lemma_before_total(a: Seq<char>, b: Seq<char>)
    ensures
        a == b || before(a, b) || before(b, a),
    decreases a.len(),
{
    if a.len() > 0 && b.len() > 0 && a[0] == b[0] {
        lemma_before_total(a.skip(1), b.skip(1));
        if a.skip(1) == b.skip(1) {
            assert(a =~= seq![a[0]] + a.skip(1));
            assert(b =~= seq![b[0]] + b.skip(1));
        }
    } else if a.len() == 0 && b.len() == 0 {
        assert(a =~= b);
    }
}

pub fn less(a: &str, b: &str) -> (r: bool)
    ensures
        r == before(a@, b@),
{
    let x = chars_of(a);
    let y = chars_of(b);
    let mut i: usize = 0;
    assert(x@.skip(0) == x@);
    assert(y@.skip(0) == y@);
    while i < x.len() && i < y.len() && x[i] == y[i]
        invariant
            i <= x.len(),
            i <= y.len(),
            x@ == a@,
            y@ == b@,
            before(a@, b@) == before(x@.skip(i as int), y@.skip(i as int)),
        decreases x.len() - i,
    {
        assert(x@.skip(i as int).skip(1) == x@.skip(i + 1));
        assert(y@.skip(i as int).skip(1) == y@.skip(i + 1));
        i = i + 1;
    }
    if i == y.len() {
        false
    } else if i == x.len() {
        true
    } else {
        x[i] < y[i]
    }
}

// ---- what the operations on texts are for --------------------------------------------------------

/// A text is found wherever it stands in another, and nothing is found that does not stand there.
#[verifier::rlimit(50)]
pub proof fn law_a_text_is_found_where_it_stands(
    s: Seq<char>,
    a: Seq<char>,
    pat: Seq<char>,
    b: Seq<char>,
)
    ensures
        has(a + pat + b, pat),
        has(s, pat) ==> exists|i: int|
            0 <= i && i + pat.len() <= s.len() && #[trigger] s.subrange(i, i + pat.len()) == pat,
        begins(pat + b, pat),
        begins(s, pat) <==> s.len() >= pat.len() && s.take(pat.len() as int) == pat,
        finishes(a + pat, pat),
        finishes(s, pat) <==> s.len() >= pat.len() && s.skip(s.len() - pat.len()) == pat,
{
    let whole = a + pat + b;
    assert(whole.subrange(a.len() as int, (a.len() + pat.len()) as int) =~= pat);
    assert(occurs_at(whole, pat, a.len() as int));
    assert((pat + b).subrange(0, pat.len() as int) =~= pat);
    assert((a + pat).subrange(a.len() as int, (a.len() + pat.len()) as int) =~= pat);
    if s.len() >= pat.len() {
        assert(s.take(pat.len() as int) =~= s.subrange(0, pat.len() as int));
        assert(s.skip(s.len() - pat.len()) =~= s.subrange(s.len() - pat.len(), s.len() as int));
    }
    if has(s, pat) {
        let i = choose|i: int| occurs_at(s, pat, i);
        assert(s.subrange(i, i + pat.len()) == pat);
    }
}

/// What stands between two texts stands in the whole.
pub proof fn lemma_has_part(whole: Seq<char>, a: Seq<char>, part: Seq<char>, b: Seq<char>)
    requires
        whole == a + part + b,
    ensures
        has(whole, part),
{
    law_a_text_is_found_where_it_stands(whole, a, part, b);
}

/// What stands in a part stands in the whole.
pub proof fn lemma_has_through(whole: Seq<char>, part: Seq<char>, pat: Seq<char>)
    requires
        has(whole, part),
        has(part, pat),
    ensures
        has(whole, pat),
{
    let i = choose|i: int| occurs_at(whole, part, i);
    let j = choose|j: int| occurs_at(part, pat, j);
    assert(whole.subrange(i + j, i + j + pat.len()) =~= part.subrange(j, j + pat.len()));
    assert(occurs_at(whole, pat, i + j));
}

/// Spaces, tabs and line ends are blanks; what can be seen in ASCII is none.
pub proof fn law_blanks(c: char)
    ensures
        is_white(' ') && is_white('\t') && is_white('\n') && is_white('\r'),
        '!' <= c <= '~' ==> !is_white(c),
{
}

/// Trimming takes the blanks at the two ends away, all of them and nothing else, and a text is blank
/// exactly when it holds nothing else.
pub proof fn law_trimming_takes_the_outer_blanks(a: Seq<char>, t: Seq<char>, b: Seq<char>)
    requires
        forall|i: int| 0 <= i < a.len() ==> is_white(#[trigger] a[i]),
        forall|i: int| 0 <= i < b.len() ==> is_white(#[trigger] b[i]),
        t.len() > 0,
        !is_white(t[0]),
        !is_white(t.last()),
    ensures
        trimmed(a + t + b) == t,
        trimmed_start(a + t + b) == t + b,
        trimmed(a + b) == Seq::<char>::empty(),
        is_blank(a),
        !is_blank(a + t + b),
{
    lemma_front_blanks(a, t + b);
    assert(a + t + b =~= a + (t + b));
    lemma_back_blanks(t, b);
    assert forall|i: int| 0 <= i < (a + b).len() implies is_white(#[trigger] (a + b)[i]) by {
        if i >= a.len() {
            assert((a + b)[i] == b[i - a.len()]);
        }
    }
    lemma_all_blank(a + b);
    lemma_all_blank(a);
}

/// A text is blank exactly when every character of it is.
pub proof fn law_what_is_blank(s: Seq<char>)
    ensures
        is_blank(s) <==> forall|i: int| 0 <= i < s.len() ==> is_white(#[trigger] s[i]),
{
    if forall|i: int| 0 <= i < s.len() ==> is_white(#[trigger] s[i]) {
        lemma_all_blank(s);
    } else {
        let i = choose|i: int| 0 <= i < s.len() && !is_white(#[trigger] s[i]);
        lemma_not_blank(s, i);
    }
}

proof fn lemma_not_blank(s: Seq<char>, i: int)
    requires
        0 <= i < s.len(),
        !is_white(s[i]),
    ensures
        !is_blank(s),
    decreases s.len(),
{
    if is_white(s[0]) {
        assert(s.skip(1)[i - 1] == s[i]);
        lemma_not_blank(s.skip(1), i - 1);
    } else {
        lemma_keeps_its_start(s);
    }
}

proof fn lemma_keeps_its_start(s: Seq<char>)
    requires
        s.len() > 0,
        !is_white(s[0]),
    ensures
        trimmed_end(s).len() > 0,
    decreases s.len(),
{
    if is_white(s.last()) {
        assert(s.drop_last()[0] == s[0]);
        lemma_keeps_its_start(s.drop_last());
    }
}

proof fn lemma_front_blanks(a: Seq<char>, s: Seq<char>)
    requires
        forall|i: int| 0 <= i < a.len() ==> is_white(#[trigger] a[i]),
    ensures
        trimmed_start(a + s) == trimmed_start(s),
    decreases a.len(),
{
    if a.len() > 0 {
        assert(is_white(a[0]));
        assert((a + s).skip(1) =~= a.skip(1) + s);
        assert forall|i: int| 0 <= i < a.skip(1).len() implies is_white(#[trigger] a.skip(1)[i]) by {
            assert(is_white(a[i + 1]));
        }
        lemma_front_blanks(a.skip(1), s);
    } else {
        assert(a + s =~= s);
    }
}

proof fn lemma_back_blanks(s: Seq<char>, b: Seq<char>)
    requires
        forall|i: int| 0 <= i < b.len() ==> is_white(#[trigger] b[i]),
    ensures
        trimmed_end(s + b) == trimmed_end(s),
    decreases b.len(),
{
    if b.len() > 0 {
        assert(is_white(b[b.len() - 1]));
        assert((s + b).drop_last() =~= s + b.drop_last());
        assert forall|i: int| 0 <= i < b.drop_last().len() implies is_white(
            #[trigger] b.drop_last()[i],
        ) by {
            assert(is_white(b[i]));
        }
        lemma_back_blanks(s, b.drop_last());
    } else {
        assert(s + b =~= s);
    }
}

proof fn lemma_all_blank(s: Seq<char>)
    requires
        forall|i: int| 0 <= i < s.len() ==> is_white(#[trigger] s[i]),
    ensures
        trimmed(s) == Seq::<char>::empty(),
{
    lemma_front_blanks(s, Seq::empty());
    assert(s + Seq::<char>::empty() =~= s);
    assert(trimmed_start(Seq::<char>::empty()) =~= Seq::<char>::empty());
}

/// Replacing puts the new text where the old one stands and keeps everything around it; a text that
/// does not hold the old one is left alone.
#[verifier::rlimit(50)]
pub proof fn law_replacing_keeps_what_stands_around(
    a: Seq<char>,
    from: Seq<char>,
    b: Seq<char>,
    to: Seq<char>,
)
    requires
        from.len() > 0,
        forall|i: int| 0 <= i < a.len() ==> !#[trigger] occurs_at(a + from + b, from, i),
    ensures
        replaced(a + from + b, from, to) == a + to + replaced(b, from, to),
        !(has(b, from)) ==> replaced(b, from, to) == b,
        !(has(b, from)) ==> replaced(a + from + b, from, to) == a + to + b,
    decreases a.len(),
{
    let s = a + from + b;
    if !(has(b, from)) {
        lemma_nothing_to_replace(b, from, to);
    }
    if a.len() == 0 {
        assert(s.subrange(0, from.len() as int) =~= from);
        assert(s.skip(from.len() as int) =~= b);
        assert(to + replaced(b, from, to) =~= a + to + replaced(b, from, to));
    } else {
        assert(!occurs_at(s, from, 0));
        let rest = a.skip(1) + from + b;
        assert(s.skip(1) =~= rest);
        assert forall|i: int| 0 <= i < a.skip(1).len() implies !#[trigger] occurs_at(rest, from, i) by {
            if occurs_at(rest, from, i) {
                assert(s.subrange(i + 1, i + 1 + from.len()) =~= rest.subrange(i, i + from.len()));
                assert(occurs_at(s, from, i + 1));
            }
        }
        law_replacing_keeps_what_stands_around(a.skip(1), from, b, to);
        assert(seq![s[0]] + (a.skip(1) + to + replaced(b, from, to)) =~= a + to + replaced(
            b,
            from,
            to,
        ));
    }
}

proof fn lemma_nothing_to_replace(s: Seq<char>, from: Seq<char>, to: Seq<char>)
    requires
        !(has(s, from)),
    ensures
        replaced(s, from, to) == s,
    decreases s.len(),
{
    if s.len() > 0 && from.len() > 0 {
        assert(!occurs_at(s, from, 0));
        assert(!(has(s.skip(1), from))) by {
            if has(s.skip(1), from) {
                let i = choose|i: int| occurs_at(s.skip(1), from, i);
                assert(s.subrange(i + 1, i + 1 + from.len()) =~= s.skip(1).subrange(
                    i,
                    i + from.len(),
                ));
                assert(occurs_at(s, from, i + 1));
            }
        }
        lemma_nothing_to_replace(s.skip(1), from, to);
        assert(seq![s[0]] + s.skip(1) =~= s);
    }
}

/// A text is split at the first place where the character stands, which stands in neither the front
/// nor, where there is no split, anywhere.
pub proof fn law_a_split_is_at_the_first_place(s: Seq<char>, head: Seq<char>, c: char, tail: Seq<char>)
    requires
        forall|i: int| 0 <= i < head.len() ==> #[trigger] head[i] != c,
    ensures
        split_at_first(head + seq![c] + tail, c) == Some((head, tail)),
        split_at_first(head, c) is None,
        split_at_first(s, c) matches Some((x, y)) ==> s == x + seq![c] + y,
{
    let whole = head + seq![c] + tail;
    lemma_first_of(whole, c);
    lemma_first_of(head, c);
    lemma_first_of(s, c);
    let k = first_of(whole, c);
    assert(whole[head.len() as int] == c);
    if k < head.len() {
        assert(whole[k] == head[k]);
    }
    assert(whole.take(k) =~= head);
    assert(whole.skip(k + 1) =~= tail);
    let j = first_of(s, c);
    if j < s.len() {
        assert(s =~= s.take(j) + seq![c] + s.skip(j + 1));
    }
}

/// What is listed with a separator reads item by item: one item is itself, and two lists in a row
/// are joined by one separator.
pub proof fn law_joining(a: Seq<Seq<char>>, b: Seq<Seq<char>>, item: Seq<char>, sep: Seq<char>)
    ensures
        joined(Seq::empty(), sep) == Seq::<char>::empty(),
        joined(seq![item], sep) == item,
        a.len() > 0 && b.len() > 0 ==> joined(a + b, sep) == joined(a, sep) + sep + joined(b, sep),
    decreases b.len(),
{
    if a.len() > 0 && b.len() > 0 {
        let all = a + b;
        assert(all.drop_last() =~= a + b.drop_last());
        assert(all.last() == b.last());
        if b.len() == 1 {
            assert(a + b.drop_last() =~= a);
        } else {
            law_joining(a, b.drop_last(), item, sep);
            assert(joined(all, sep) =~= joined(a, sep) + sep + joined(b, sep));
        }
    }
}

/// Every item stands in the list.
#[verifier::rlimit(50)]
pub proof fn law_every_joined_item_is_shown(v: Seq<Seq<char>>, sep: Seq<char>, i: int)
    requires
        0 <= i < v.len(),
    ensures
        has(joined(v, sep), v[i]),
{
    let whole = joined(v, sep);
    let front = v.take(i);
    let back = v.skip(i + 1);
    law_joining(front, seq![v[i]] + back, v[i], sep);
    law_joining(seq![v[i]], back, v[i], sep);
    let empty = Seq::<char>::empty();
    assert(v =~= front + (seq![v[i]] + back));
    if back.len() == 0 {
        assert(seq![v[i]] + back =~= seq![v[i]]);
        if i == 0 {
            assert(v =~= seq![v[i]]);
            lemma_has_part(whole, empty, v[i], empty);
        } else {
            assert(whole =~= joined(front, sep) + sep + v[i] + empty);
            lemma_has_part(whole, joined(front, sep) + sep, v[i], empty);
        }
    } else {
        let tail = sep + joined(back, sep);
        if i == 0 {
            assert(v =~= seq![v[i]] + back);
            assert(whole =~= empty + v[i] + tail);
            lemma_has_part(whole, empty, v[i], tail);
        } else {
            assert(whole =~= joined(front, sep) + sep + v[i] + tail);
            lemma_has_part(whole, joined(front, sep) + sep, v[i], tail);
        }
    }
}

/// Indented lines stand one under the other, each between two blanks and a line feed.
#[verifier::rlimit(50)]
pub proof fn law_indenting(a: Seq<Seq<char>>, b: Seq<Seq<char>>, line: Seq<char>)
    ensures
        indented(Seq::empty()) == Seq::<char>::empty(),
        indented(seq![line]) == "  "@ + line + "\n"@,
        indented(a + b) == indented(a) + indented(b),
    decreases b.len(),
{
    reveal_with_fuel(indented, 2);
    assert(seq![line].drop_last() =~= Seq::<Seq<char>>::empty());
    assert(indented(seq![line]) =~= "  "@ + line + "\n"@);
    if b.len() == 0 {
        assert(a + b =~= a);
        assert(indented(a) + indented(b) =~= indented(a));
    } else {
        law_indenting(a, b.drop_last(), line);
        assert((a + b).drop_last() =~= a + b.drop_last());
        assert(indented(a + b) =~= indented(a) + indented(b));
    }
}

/// Every indented line is shown.
pub proof fn law_every_indented_line_is_shown(v: Seq<Seq<char>>, i: int)
    requires
        0 <= i < v.len(),
    ensures
        has(indented(v), "  "@ + v[i] + "\n"@),
{
    let front = v.take(i);
    let back = v.skip(i + 1);
    assert(v =~= front + (seq![v[i]] + back));
    law_indenting(front, seq![v[i]] + back, v[i]);
    law_indenting(seq![v[i]], back, v[i]);
    assert(indented(v) =~= indented(front) + ("  "@ + v[i] + "\n"@) + indented(back));
    lemma_has_part(indented(v), indented(front), "  "@ + v[i] + "\n"@, indented(back));
}

/// Lines are what stands between the line ends: putting the pieces together again gives the text,
/// and no piece holds what it was cut at.
pub proof fn law_pieces_make_the_text(s: Seq<char>, c: char)
    ensures
        pieces(s, c).len() > 0,
        joined(pieces(s, c), seq![c]) == s,
        forall|i: int, j: int|
            0 <= i < pieces(s, c).len() && 0 <= j < pieces(s, c)[i].len() ==> #[trigger] pieces(
                s,
                c,
            )[i][j] != c,
    decreases s.len(),
{
    let all = pieces(s, c);
    let k = first_of(s, c);
    lemma_first_of(s, c);
    if k < s.len() {
        let head = s.take(k);
        let tail = s.skip(k + 1);
        law_pieces_make_the_text(tail, c);
        assert(all == seq![head] + pieces(tail, c));
        law_joining(seq![head], pieces(tail, c), head, seq![c]);
        assert(head + seq![c] + tail =~= s);
        assert forall|i: int, j: int|
            0 <= i < all.len() && 0 <= j < all[i].len() implies #[trigger] all[i][j] != c by {
            if i > 0 {
                assert(all[i] == pieces(tail, c)[i - 1]);
            }
        }
    }
}

/// Lines that were written one after the other are read back one after the other.
pub proof fn law_joined_lines_are_read_back(v: Seq<Seq<char>>, c: char)
    requires
        v.len() > 0,
        forall|i: int, j: int| 0 <= i < v.len() && 0 <= j < v[i].len() ==> #[trigger] v[i][j] != c,
    ensures
        pieces(joined(v, seq![c]), c) == v,
    decreases v.len(),
{
    let head = v[0];
    let rest = v.skip(1);
    assert forall|i: int| 0 <= i < head.len() implies #[trigger] head[i] != c by {
        assert(v[0][i] != c);
    }
    if v.len() == 1 {
        assert(v =~= seq![head]);
        law_joining(v, v, head, seq![c]);
        law_a_split_is_at_the_first_place(head, head, c, head);
    } else {
        assert(v =~= seq![head] + rest);
        law_joining(seq![head], rest, head, seq![c]);
        assert forall|i: int, j: int|
            0 <= i < rest.len() && 0 <= j < rest[i].len() implies #[trigger] rest[i][j] != c by {
            assert(v[i + 1][j] != c);
        }
        law_joined_lines_are_read_back(rest, c);
        law_a_split_is_at_the_first_place(head, head, c, joined(rest, seq![c]));
        assert(seq![head] + rest =~= v);
    }
}

/// In ASCII, lowering turns each capital into its small letter and leaves everything else.
pub proof fn law_lowering(s: Seq<char>, i: int)
    requires
        vstd::utf8::is_ascii_chars(s),
        0 <= i < s.len(),
    ensures
        lowered(s).len() == s.len(),
        'A' <= s[i] <= 'Z' ==> lowered(s)[i] as int == s[i] as int + 32,
        !('A' <= s[i] <= 'Z') ==> lowered(s)[i] == s[i],
        vstd::utf8::is_ascii_chars(lowered(s)),
        lowered(lowered(s)) == lowered(s),
{
    let l = lowered(s);
    assert forall|k: int| 0 <= k < l.len() implies '\0' <= #[trigger] l[k] <= '\u{7f}' && !('A' <= l[k]
        <= 'Z') by {
        assert('\0' <= s[k] <= '\u{7f}');
    }
    assert(lowered(l) =~= l);
}

/// Texts agree but for case exactly when they have the same length and agree letter by letter, a
/// capital with its small letter.
pub proof fn law_alike(a: Seq<char>, b: Seq<char>)
    ensures
        alike(a, a),
        alike(a, b) == alike(b, a),
        vstd::utf8::is_ascii_chars(a) && vstd::utf8::is_ascii_chars(b) ==> (alike(a, b) <==> lowered(a)
            == lowered(b)),
        alike(a, b) ==> a.len() == b.len(),
{
    if alike(a, b) {
        assert forall|i: int| 0 <= i < b.len() implies ascii_lower(#[trigger] b[i]) == ascii_lower(a[i]) by {
            assert(ascii_lower(a[i]) == ascii_lower(b[i]));
        }
        if vstd::utf8::is_ascii_chars(a) && vstd::utf8::is_ascii_chars(b) {
            assert(lowered(a) =~= lowered(b));
        }
    }
    if alike(b, a) {
        assert forall|i: int| 0 <= i < a.len() implies ascii_lower(#[trigger] a[i]) == ascii_lower(b[i]) by {
            assert(ascii_lower(b[i]) == ascii_lower(a[i]));
        }
    }
    if vstd::utf8::is_ascii_chars(a) && vstd::utf8::is_ascii_chars(b) && lowered(a) == lowered(b) {
        assert(lowered(a).len() == a.len() && lowered(b).len() == b.len());
        assert forall|i: int| 0 <= i < a.len() implies ascii_lower(#[trigger] a[i]) == ascii_lower(b[i]) by {
            assert(lowered(a)[i] == lowered(b)[i]);
        }
    }
}

/// A list holds a text exactly when the text is one of its items.
pub proof fn law_what_is_listed(items: Seq<Seq<char>>, t: Seq<char>)
    ensures
        lists(items, t) <==> items.contains(t),
{
}

/// Texts are ordered by the first character in which they differ, and a text stands before what
/// continues it.
pub proof fn law_order(p: Seq<char>, x: char, a: Seq<char>, y: char, b: Seq<char>)
    ensures
        x < y ==> before(p + seq![x] + a, p + seq![y] + b),
        x > y ==> !before(p + seq![x] + a, p + seq![y] + b),
        before(p, p + seq![x] + a),
        !before(p + seq![x] + a, p),
    decreases p.len(),
{
    let s = p + seq![x] + a;
    let t = p + seq![y] + b;
    if p.len() > 0 {
        law_order(p.skip(1), x, a, y, b);
        assert(s.skip(1) =~= p.skip(1) + seq![x] + a);
        assert(t.skip(1) =~= p.skip(1) + seq![y] + b);
    }
}

/// The decimal notation of a number: a digit below ten, and one digit more for ten times as much;
/// negative numbers carry a minus sign.
pub proof fn law_decimal_notation(n: nat, d: nat)
    requires
        d < 10,
    ensures
        decimal(d) == seq![(48 + d) as char],
        n > 0 ==> decimal(10 * n + d) == decimal(n) + decimal(d),
        n > 0 ==> signed(-(n as int)) == seq!['-'] + decimal(n),
        signed(n as int) == decimal(n),
{
    if n > 0 {
        assert((10 * n + d) / 10 == n && (10 * n + d) % 10 == d);
        assert(decimal(n).push(digit_char(d as int)) =~= decimal(n) + decimal(d));
    }
}

/// Of a text made of five, the first stands in front and the next three stand in it.
pub proof fn lemma_has_parts(
    a: Seq<char>,
    b: Seq<char>,
    c: Seq<char>,
    d: Seq<char>,
    e: Seq<char>,
)
    ensures
        begins(a + b + c + d + e, a),
        has(a + b + c + d + e, b),
        has(a + b + c + d + e, c),
        has(a + b + c + d + e, d),
{
    let t = a + b + c + d + e;
    let empty = Seq::<char>::empty();
    assert(t =~= a + (b + c + d + e));
    law_a_text_is_found_where_it_stands(empty, empty, a, b + c + d + e);
    assert(t =~= a + b + (c + d + e));
    lemma_has_part(t, a, b, c + d + e);
    assert(t =~= (a + b) + c + (d + e));
    lemma_has_part(t, a + b, c, d + e);
    lemma_has_part(t, a + b + c, d, e);
}

/// Of four texts in front of another, the first stands in front of it and the next two stand in it.
pub proof fn lemma_has_front(
    whole: Seq<char>,
    a: Seq<char>,
    b: Seq<char>,
    c: Seq<char>,
    d: Seq<char>,
)
    requires
        begins(whole, a + b + c + d),
    ensures
        begins(whole, a),
        has(whole, b),
        has(whole, c),
{
    let n = (a + b + c + d).len() as int;
    let rest = whole.skip(n);
    assert(whole =~= whole.subrange(0, n) + rest);
    lemma_has_parts(a, b, c, d, rest);
}

proof fn lemma_stripped_start_of_longer(s: Seq<char>, c: char)
    ensures
        stripped_start(s.push(c), c) == if stripped_start(s, c).len() == 0 {
            Seq::empty()
        } else {
            stripped_start(s, c).push(c)
        },
    decreases s.len(),
{
    if s.len() == 0 {
        assert(s.push(c).skip(1) =~= Seq::<char>::empty());
        assert(s =~= Seq::<char>::empty());
        reveal_with_fuel(stripped_start, 2);
    } else if s[0] == c {
        assert(s.push(c)[0] == c);
        assert(s.push(c).skip(1) =~= s.skip(1).push(c));
        lemma_stripped_start_of_longer(s.skip(1), c);
    } else {
        assert(s.push(c)[0] == s[0]);
    }
}

/// Stripping takes every `c` off both ends, and nothing else.
pub proof fn law_stripping_takes_the_outer_characters(s: Seq<char>, c: char)
    ensures
        stripped(seq![c] + s, c) == stripped(s, c),
        stripped(s.push(c), c) == stripped(s, c),
        s.len() > 0 && s[0] != c && s.last() != c ==> stripped(s, c) == s,
        stripped(Seq::empty(), c).len() == 0,
{
    assert((seq![c] + s).skip(1) =~= s);
    assert((seq![c] + s)[0] == c);
    lemma_stripped_start_of_longer(s, c);
    let t = stripped_start(s, c);
    assert(t.push(c).drop_last() =~= t);
    assert(t.push(c).last() == c);
    if t.len() == 0 {
        assert(t =~= Seq::<char>::empty());
    }
}

/// Plain text is quoted by a quotation mark on either side.
pub proof fn law_plain_text_is_quoted_as_it_is(s: Seq<char>)
    requires
        forall|i: int|
            0 <= i < s.len() ==> ' ' <= #[trigger] s[i] <= '~' && s[i] != '"' && s[i] != '\\',
    ensures
        notation(s) == seq!['"'] + s + seq!['"'],
{
}

/// Texts may be put together from either end.
pub proof fn lemma_put_together(a: Seq<char>, b: Seq<char>, c: Seq<char>)
    ensures
        a + b + c == a + (b + c),
{
    assert(a + b + c =~= a + (b + c));
}

/// The letters and the digits of ASCII, by their code points.
pub proof fn law_what_letters_and_digits_are(c: char)
    ensures
        is_letter(c) <==> 97 <= c as u32 <= 122 || 65 <= c as u32 <= 90,
        is_digit(c) <==> 48 <= c as u32 <= 57,
        is_letter(c) ==> !is_digit(c),
        65 <= c as u32 <= 90 ==> ascii_lower(c) as u32 == c as u32 + 32,
        !(65 <= c as u32 <= 90) ==> ascii_lower(c) == c,
{
}

/// A quotation mark, a backslash, and anything that ASCII does not print keep a text from being
/// plain.
pub proof fn law_what_is_not_plain(s: Seq<char>, i: int)
    requires
        0 <= i < s.len(),
        s[i] == '"' || s[i] == '\\' || s[i] < ' ' || s[i] > '~',
    ensures
        !is_plain(s),
{
    assert(!(' ' <= s[i] <= '~' && s[i] != '"' && s[i] != '\\'));
}

} // verus!
