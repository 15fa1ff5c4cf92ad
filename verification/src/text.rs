//! Text primitives: every operation is stated over the characters of a string.
use vstd::prelude::*;
use vstd::string::*;

verus! {

/// Appends one character, as `String::push` documents: the characters so far, then `c`.
pub assume_specification[ String::push ](s: &mut String, c: char)
    ensures
        final(s)@ == old(s)@.push(c),
;

/// The Unicode `White_Space` property.
pub open spec fn is_whitespace_char(c: char) -> bool {
    let n = c as u32;
    ||| 0x09 <= n <= 0x0d
    ||| n == 0x20
    ||| n == 0x85
    ||| n == 0xa0
    ||| n == 0x1680
    ||| 0x2000 <= n <= 0x200a
    ||| 0x2028 <= n <= 0x2029
    ||| n == 0x202f
    ||| n == 0x205f
    ||| n == 0x3000
}

pub fn is_whitespace(c: char) -> (r: bool)
    ensures
        r == is_whitespace_char(c),
{
    let n: u32 = c as u32;
    (0x09 <= n && n <= 0x0d) || n == 0x20 || n == 0x85 || n == 0xa0 || n == 0x1680 || (0x2000 <= n
        && n <= 0x200a) || n == 0x2028 || n == 0x2029 || n == 0x202f || n == 0x205f || n == 0x3000
}

/// The characters of a string as a vector.
pub fn chars_of(s: &str) -> (r: Vec<char>)
    ensures
        r@ == s@,
{
    let mut out: Vec<char> = Vec::new();
    for c in iter: s.chars()
        invariant
            iter.seq() == s@,
            out@ == s@.take(iter.index()),
    {
        out.push(c);
        assert(s@.take(iter.index() + 1) =~= s@.take(iter.index()).push(c));
    }
    assert(s@.take(s@.len() as int) =~= s@);
    out
}

/// Compares two strings with `str`'s `==`, which holds exactly when the characters agree.
#[verifier::external_body]
pub(crate) fn same_text(a: &str, b: &str) -> (r: bool)
    ensures
        r == (a@ == b@),
{
    a == b
}

/// What `str::to_lowercase` makes of a text, by the Unicode lowercase mappings.
pub uninterp spec fn lowercase_text(s: Seq<char>) -> Seq<char>;

/// Lowercases a text with `str::to_lowercase`; the result depends on the text alone, and only the
/// empty text becomes empty, since every character maps to one or more.
#[verifier::external_body]
pub(crate) fn lowercase(s: &str) -> (r: String)
    ensures
        r@ == lowercase_text(s@),
        r@.len() == 0 <==> s@.len() == 0,
{
    s.to_lowercase()
}

/// What `String::from_utf8_lossy` reads from bytes.
pub uninterp spec fn lossy_text(bytes: Seq<u8>) -> Seq<char>;

/// Reads bytes as text with `String::from_utf8_lossy`: the outcome depends on the bytes alone,
/// and bytes that are UTF-8 are read without loss.
#[verifier::external_body]
pub(crate) fn read_lossy(bytes: &[u8]) -> (r: String)
    ensures
        r@ == lossy_text(bytes@),
        vstd::utf8::valid_utf8(bytes@) ==> vstd::utf8::encode_utf8(r@) == bytes@,
{
    String::from_utf8_lossy(bytes).into_owned()
}

/// Reads bytes as text with `String::from_utf8`, which takes exactly the bytes that are UTF-8.
#[verifier::external_body]
pub(crate) fn read_utf8(bytes: &[u8]) -> (r: Option<String>)
    ensures
        match r {
            Some(text) => vstd::utf8::valid_utf8(bytes@) && text@ == vstd::utf8::decode_utf8(bytes@),
            None => !vstd::utf8::valid_utf8(bytes@),
        },
{
    String::from_utf8(bytes.to_vec()).ok()
}

/// A string holding the given characters.
pub fn string_of(chars: &[char]) -> (r: String)
    ensures
        r@ == chars@,
{
    let mut out = String::new();
    let mut i: usize = 0;
    while i < chars.len()
        invariant
            i <= chars@.len(),
            out@ == chars@.take(i as int),
        decreases chars@.len() - i,
    {
        out.push(chars[i]);
        assert(chars@.take(i + 1) =~= chars@.take(i as int).push(chars@[i as int]));
        i = i + 1;
    }
    assert(chars@.take(chars@.len() as int) =~= chars@);
    out
}

/// The number of bytes of a text in UTF-8.
pub open spec fn utf8_len(s: Seq<char>) -> nat {
    vstd::utf8::encode_utf8(s).len()
}

pub fn byte_len(s: &str) -> (r: usize)
    ensures
        r == utf8_len(s@),
{
    s.as_bytes().len()
}

/// What is left of `s` once the leading characters in `class` are dropped.
pub open spec fn trim_start_by(s: Seq<char>, class: spec_fn(char) -> bool) -> Seq<char>
    decreases s.len(),
{
    if s.len() > 0 && class(s[0]) {
        trim_start_by(s.skip(1), class)
    } else {
        s
    }
}

/// What is left of `s` once the trailing characters in `class` are dropped.
pub open spec fn trim_end_by(s: Seq<char>, class: spec_fn(char) -> bool) -> Seq<char>
    decreases s.len(),
{
    if s.len() > 0 && class(s.last()) {
        trim_end_by(s.drop_last(), class)
    } else {
        s
    }
}

/// A text without the white space around it.
pub open spec fn trimmed(s: Seq<char>) -> Seq<char> {
    trim_end_by(trim_start_by(s, |c: char| is_whitespace_char(c)), |c: char| is_whitespace_char(c))
}

/// A text without the white space at its end.
pub open spec fn trimmed_end(s: Seq<char>) -> Seq<char> {
    trim_end_by(s, |c: char| is_whitespace_char(c))
}

/// Carriage return, line feed or space.
pub open spec fn is_line_padding(c: char) -> bool {
    c == '\r' || c == '\n' || c == ' '
}

/// A text without the line ends and spaces around it.
pub open spec fn trimmed_lines(s: Seq<char>) -> Seq<char> {
    trim_end_by(trim_start_by(s, |c: char| is_line_padding(c)), |c: char| is_line_padding(c))
}

/// Trimming only takes characters away: what is left is one run of the text, with members of
/// the class around it and none at its ends.
pub proof fn lemma_trim_start(s: Seq<char>, class: spec_fn(char) -> bool, n: int)
    requires
        0 <= n <= s.len(),
        forall|i: int| 0 <= i < n ==> class(#[trigger] s[i]),
        n < s.len() ==> !class(s[n]),
    ensures
        trim_start_by(s, class) == s.skip(n),
    decreases n,
{
    if n > 0 {
        let t = s.skip(1);
        assert(class(s[0]));
        assert forall|i: int| 0 <= i < n - 1 implies class(#[trigger] t[i]) by {
            assert(t[i] == s[i + 1]);
        }
        lemma_trim_start(t, class, n - 1);
        assert(t.skip(n - 1) =~= s.skip(n));
    } else {
        assert(s.skip(0) =~= s);
    }
}

/// The counterpart of `lemma_trim_start` for the end of a text.
pub proof fn lemma_trim_end(s: Seq<char>, class: spec_fn(char) -> bool, n: int)
    requires
        0 <= n <= s.len(),
        forall|i: int| n <= i < s.len() ==> class(#[trigger] s[i]),
        n > 0 ==> !class(s[n - 1]),
    ensures
        trim_end_by(s, class) == s.take(n),
    decreases s.len() - n,
{
    if n < s.len() {
        let t = s.drop_last();
        assert(class(s[s.len() - 1]));
        assert forall|i: int| n <= i < t.len() implies class(#[trigger] t[i]) by {
            assert(t[i] == s[i]);
        }
        lemma_trim_end(t, class, n);
        assert(t.take(n) =~= s.take(n));
    } else {
        assert(s.take(n) =~= s);
    }
}

/// A start-trimmed text does not begin with a member of the class, and only leading members go.
pub proof fn lemma_trim_start_shape(s: Seq<char>, class: spec_fn(char) -> bool)
    ensures
        trim_start_by(s, class).len() <= s.len(),
        trim_start_by(s, class) == s.skip(s.len() - trim_start_by(s, class).len()),
        trim_start_by(s, class).len() > 0 ==> !class(trim_start_by(s, class)[0]),
        trim_start_by(s, class).len() > 0 ==> trim_start_by(s, class).last() == s.last(),
    decreases s.len(),
{
    if s.len() > 0 && class(s[0]) {
        lemma_trim_start_shape(s.skip(1), class);
        let rest = trim_start_by(s, class);
        assert(s.skip(1).skip(s.skip(1).len() - rest.len()) =~= s.skip(s.len() - rest.len()));
    } else {
        assert(s.skip(0) =~= s);
    }
}

/// An end-trimmed text does not end with a member of the class, and only trailing members go.
pub proof fn lemma_trim_end_shape(s: Seq<char>, class: spec_fn(char) -> bool)
    ensures
        trim_end_by(s, class).len() <= s.len(),
        trim_end_by(s, class) == s.take(trim_end_by(s, class).len() as int),
        trim_end_by(s, class).len() > 0 ==> !class(trim_end_by(s, class).last()),
    decreases s.len(),
{
    if s.len() > 0 && class(s.last()) {
        lemma_trim_end_shape(s.drop_last(), class);
        let rest = trim_end_by(s, class);
        assert(s.drop_last().take(rest.len() as int) =~= s.take(rest.len() as int));
    } else {
        assert(s.take(s.len() as int) =~= s);
    }
}

pub proof fn lemma_empty_is_trimmed()
    ensures
        trimmed(Seq::<char>::empty()).len() == 0,
{
    reveal_with_fuel(trim_start_by, 2);
    reveal_with_fuel(trim_end_by, 2);
}

/// No white space stands at either end of a trimmed text, and trimming it again changes nothing.
pub proof fn trimming_is_final(s: Seq<char>)
    ensures
        trimmed(s).len() > 0 ==> !is_whitespace_char(trimmed(s)[0]) && !is_whitespace_char(
            trimmed(s).last(),
        ),
        trimmed(trimmed(s)) == trimmed(s),
{
    let class = |c: char| is_whitespace_char(c);
    let front = trim_start_by(s, class);
    lemma_trim_start_shape(s, class);
    lemma_trim_end_shape(front, class);
    let t = trimmed(s);
    if t.len() > 0 {
        assert(t[0] == front[0]);
    }
}

/// The text without surrounding white space.
pub fn trim<'a>(s: &'a str) -> (r: &'a str)
    ensures
        r@ == trimmed(s@),
{
    let chars = chars_of(s);
    let ghost class = |c: char| is_whitespace_char(c);
    let mut start: usize = 0;
    while start < chars.len() && is_whitespace(chars[start])
        invariant
            start <= chars@.len(),
            forall|i: int| 0 <= i < start ==> is_whitespace_char(#[trigger] chars@[i]),
        decreases chars@.len() - start,
    {
        start = start + 1;
    }
    let mut end: usize = chars.len();
    while end > start && is_whitespace(chars[end - 1])
        invariant
            start <= end <= chars@.len(),
            forall|i: int| end <= i < chars@.len() ==> is_whitespace_char(#[trigger] chars@[i]),
        decreases end,
    {
        end = end - 1;
    }
    proof {
        lemma_trim_start(s@, class, start as int);
        let rest = s@.skip(start as int);
        assert forall|i: int| end - start <= i < rest.len() implies class(#[trigger] rest[i]) by {
            assert(rest[i] == chars@[i + start]);
        }
        lemma_trim_end(rest, class, end - start);
        assert(rest.take(end - start) =~= s@.subrange(start as int, end as int));
    }
    s.substring_char(start, end)
}

/// The text without white space at its end.
pub fn trim_end<'a>(s: &'a str) -> (r: &'a str)
    ensures
        r@ == trimmed_end(s@),
{
    let chars = chars_of(s);
    let mut end: usize = chars.len();
    while end > 0 && is_whitespace(chars[end - 1])
        invariant
            end <= chars@.len(),
            forall|i: int| end <= i < chars@.len() ==> is_whitespace_char(#[trigger] chars@[i]),
        decreases end,
    {
        end = end - 1;
    }
    proof {
        lemma_trim_end(s@, |c: char| is_whitespace_char(c), end as int);
        assert(s@.take(end as int) =~= s@.subrange(0, end as int));
    }
    s.substring_char(0, end)
}

/// Whether nothing but white space is in the text.
pub fn is_blank(s: &str) -> (r: bool)
    ensures
        r == (trimmed(s@).len() == 0),
{
    trim(s).is_empty()
}

/// ASCII letters in lower case, everything else unchanged.
pub open spec fn ascii_lower_char(c: char) -> char {
    if 'A' <= c <= 'Z' {
        ((c as u32 + 32) as u32) as char
    } else {
        c
    }
}

/// ASCII letters in upper case, everything else unchanged.
pub open spec fn ascii_upper_char(c: char) -> char {
    if 'a' <= c <= 'z' {
        ((c as u32 - 32) as u32) as char
    } else {
        c
    }
}

pub open spec fn ascii_lower(s: Seq<char>) -> Seq<char> {
    Seq::new(s.len(), |i: int| ascii_lower_char(s[i]))
}

pub open spec fn ascii_upper(s: Seq<char>) -> Seq<char> {
    Seq::new(s.len(), |i: int| ascii_upper_char(s[i]))
}

pub fn to_ascii_lower_char(c: char) -> (r: char)
    ensures
        r == ascii_lower_char(c),
{
    if 'A' <= c && c <= 'Z' {
        let n: u8 = c as u8;
        (n + 32) as char
    } else {
        c
    }
}

pub fn to_ascii_upper_char(c: char) -> (r: char)
    ensures
        r == ascii_upper_char(c),
{
    if 'a' <= c && c <= 'z' {
        let n: u8 = c as u8;
        (n - 32) as char
    } else {
        c
    }
}

/// The text with ASCII letters in lower case.
pub fn to_ascii_lower(s: &str) -> (r: String)
    ensures
        r@ == ascii_lower(s@),
{
    let mut out = String::new();
    for c in iter: s.chars()
        invariant
            iter.seq() == s@,
            out@ == ascii_lower(s@).take(iter.index()),
    {
        out.push(to_ascii_lower_char(c));
        assert(ascii_lower(s@).take(iter.index() + 1) =~= ascii_lower(s@).take(iter.index()).push(
            ascii_lower_char(c),
        ));
    }
    assert(ascii_lower(s@).take(s@.len() as int) =~= ascii_lower(s@));
    out
}

/// The text with ASCII letters in upper case.
pub fn to_ascii_upper(s: &str) -> (r: String)
    ensures
        r@ == ascii_upper(s@),
{
    let mut out = String::new();
    for c in iter: s.chars()
        invariant
            iter.seq() == s@,
            out@ == ascii_upper(s@).take(iter.index()),
    {
        out.push(to_ascii_upper_char(c));
        assert(ascii_upper(s@).take(iter.index() + 1) =~= ascii_upper(s@).take(iter.index()).push(
            ascii_upper_char(c),
        ));
    }
    assert(ascii_upper(s@).take(s@.len() as int) =~= ascii_upper(s@));
    out
}

/// Two texts agree when the case of ASCII letters is ignored.
pub open spec fn same_ignoring_case(a: Seq<char>, b: Seq<char>) -> bool {
    ascii_lower(a) == ascii_lower(b)
}

pub fn eq_ignore_case(a: &str, b: &str) -> (r: bool)
    ensures
        r == same_ignoring_case(a@, b@),
{
    let left = to_ascii_lower(a);
    let right = to_ascii_lower(b);
    same_text(left.as_str(), right.as_str())
}

/// `needle` stands in `s` at position `at`.
pub open spec fn occurs_at(s: Seq<char>, needle: Seq<char>, at: int) -> bool {
    0 <= at && at + needle.len() <= s.len() && s.subrange(at, at + needle.len()) == needle
}

/// `needle` stands somewhere in `s`.
pub open spec fn contains_text(s: Seq<char>, needle: Seq<char>) -> bool {
    exists|at: int| occurs_at(s, needle, at)
}

pub open spec fn no_earlier(s: Seq<char>, needle: Seq<char>, at: int) -> bool {
    forall|i: int| 0 <= i < at ==> !#[trigger] occurs_at(s, needle, i)
}

pub open spec fn no_later(s: Seq<char>, needle: Seq<char>, at: int) -> bool {
    forall|i: int| at < i ==> !#[trigger] occurs_at(s, needle, i)
}

/// Whether the needle stands at this position.
pub fn occurs(s: &Vec<char>, needle: &Vec<char>, at: usize) -> (r: bool)
    requires
        at <= s@.len(),
    ensures
        r == occurs_at(s@, needle@, at as int),
{
    let total: usize = s.len();
    if needle.len() > total - at {
        return false;
    }
    let mut i: usize = 0;
    while i < needle.len()
        invariant
            i <= needle@.len(),
            at + needle@.len() <= total == s@.len(),
            forall|j: int| 0 <= j < i ==> #[trigger] needle@[j] == s@[at + j],
        decreases needle@.len() - i,
    {
        if s[at + i] != needle[i] {
            proof {
                assert(s@.subrange(at as int, at + needle@.len())[i as int] != needle@[i as int]);
            }
            return false;
        }
        i = i + 1;
    }
    assert(s@.subrange(at as int, at + needle@.len()) =~= needle@);
    true
}

/// The first position at which the needle stands.
pub fn find_first(s: &Vec<char>, needle: &Vec<char>) -> (r: Option<usize>)
    ensures
        match r {
            Some(at) => occurs_at(s@, needle@, at as int) && no_earlier(s@, needle@, at as int),
            None => !contains_text(s@, needle@),
        },
{
    let mut at: usize = 0;
    loop
        invariant
            at <= s@.len(),
            no_earlier(s@, needle@, at as int),
        decreases s@.len() - at,
    {
        if occurs(s, needle, at) {
            return Some(at);
        }
        if at == s.len() {
            assert(forall|i: int| !#[trigger] occurs_at(s@, needle@, i));
            return None;
        }
        at = at + 1;
    }
}

/// The last position at which the needle stands.
pub fn find_last(s: &Vec<char>, needle: &Vec<char>) -> (r: Option<usize>)
    ensures
        match r {
            Some(at) => occurs_at(s@, needle@, at as int) && no_later(s@, needle@, at as int),
            None => !contains_text(s@, needle@),
        },
{
    let mut at: usize = s.len();
    assert(no_later(s@, needle@, at as int));
    loop
        invariant
            at <= s@.len(),
            no_later(s@, needle@, at as int),
        decreases at,
    {
        if occurs(s, needle, at) {
            return Some(at);
        }
        if at == 0 {
            assert(forall|i: int| !#[trigger] occurs_at(s@, needle@, i));
            return None;
        }
        at = at - 1;
    }
}

pub fn contains(s: &str, needle: &str) -> (r: bool)
    ensures
        r == contains_text(s@, needle@),
{
    find_first(&chars_of(s), &chars_of(needle)).is_some()
}

pub fn starts_with(s: &str, prefix: &str) -> (r: bool)
    ensures
        r == prefix@.is_prefix_of(s@),
{
    let text = chars_of(s);
    let wanted = chars_of(prefix);
    occurs(&text, &wanted, 0)
}

pub fn ends_with(s: &str, suffix: &str) -> (r: bool)
    ensures
        r == suffix@.is_suffix_of(s@),
{
    let text = chars_of(s);
    let wanted = chars_of(suffix);
    if wanted.len() > text.len() {
        return false;
    }
    occurs(&text, &wanted, text.len() - wanted.len())
}

/// The decimal digit for a value below ten.
pub open spec fn digit_char(d: int) -> char {
    (('0' as u32 + d) as u32) as char
}

/// A number in decimal notation.
pub open spec fn decimal(n: nat) -> Seq<char>
    decreases n,
{
    if n < 10 {
        seq![digit_char(n as int)]
    } else {
        decimal(n / 10).push(digit_char((n % 10) as int))
    }
}

fn digit_of(d: u8) -> (r: char)
    requires
        d < 10,
    ensures
        r == digit_char(d as int),
{
    (48 + d) as char
}

pub fn decimal_string(n: u64) -> (r: String)
    ensures
        r@ == decimal(n as nat),
    decreases n,
{
    if n < 10 {
        let mut out = String::new();
        out.push(digit_of(n as u8));
        assert(out@ =~= decimal(n as nat));
        out
    } else {
        let mut out = decimal_string(n / 10);
        out.push(digit_of((n % 10) as u8));
        out
    }
}

/// A hexadecimal digit in lower case.
pub open spec fn hex_digit(d: int) -> char {
    if d < 10 {
        ((0x30 + d) as u32) as char
    } else {
        ((0x57 + d) as u32) as char
    }
}

/// The lowest `digits` hexadecimal digits of a number, most significant first.
pub open spec fn hex_digits(value: nat, digits: nat) -> Seq<char>
    decreases digits,
{
    if digits == 0 {
        Seq::empty()
    } else {
        hex_digits(value / 16, (digits - 1) as nat).push(hex_digit((value % 16) as int))
    }
}

fn hex_of(d: u8) -> (r: char)
    requires
        d < 16,
    ensures
        r == hex_digit(d as int),
{
    if d < 10 {
        (0x30 + d) as char
    } else {
        (0x57 + d) as char
    }
}

pub fn hex_string(value: u64, digits: usize) -> (r: String)
    ensures
        r@ == hex_digits(value as nat, digits as nat),
    decreases digits,
{
    if digits == 0 {
        let out = String::new();
        assert(out@ =~= Seq::empty());
        out
    } else {
        let mut out = hex_string(value / 16, digits - 1);
        out.push(hex_of((value % 16) as u8));
        out
    }
}

/// The number of bytes of a character in UTF-8.
pub open spec fn char_width(c: char) -> nat {
    let code = c as u32;
    if code < 0x80 {
        1
    } else if code < 0x800 {
        2
    } else if code < 0x10000 {
        3
    } else {
        4
    }
}

fn width_of(c: char) -> (r: usize)
    ensures
        r == char_width(c),
{
    let code: u32 = c as u32;
    if code < 0x80 {
        1
    } else if code < 0x800 {
        2
    } else if code < 0x10000 {
        3
    } else {
        4
    }
}

/// How many characters from the front fit into so many bytes.
pub open spec fn fitting(s: Seq<char>, limit: nat) -> nat
    decreases s.len(),
{
    if s.len() == 0 || char_width(s[0]) > limit {
        0
    } else {
        1 + fitting(s.skip(1), (limit - char_width(s[0])) as nat)
    }
}

/// The longest part from the front of a text that fits into so many bytes.
pub open spec fn cut(s: Seq<char>, limit: nat) -> Seq<char> {
    s.take(fitting(s, limit) as int)
}

pub proof fn lemma_utf8_len(s: Seq<char>)
    ensures
        s.len() == 0 ==> utf8_len(s) == 0,
        s.len() > 0 ==> utf8_len(s) == char_width(s[0]) + utf8_len(s.skip(1)),
{
    if s.len() > 0 {
        assert(s.drop_first() =~= s.skip(1));
        lemma_char_width(s[0]);
    }
}

proof fn lemma_char_width(c: char)
    ensures
        vstd::utf8::encode_scalar(c as u32).len() == char_width(c),
{
    assert(!(0xD800 <= c as u32 <= 0xDFFF));
}

/// What is cut off a text is no more than it has to be: the part that is kept fits, and with one
/// more character it would not.
pub proof fn cutting_keeps_what_fits(s: Seq<char>, limit: nat)
    ensures
        fitting(s, limit) <= s.len(),
        utf8_len(cut(s, limit)) <= limit,
        fitting(s, limit) < s.len() ==> utf8_len(s.take(fitting(s, limit) as int + 1)) > limit,
        utf8_len(s) <= limit <==> cut(s, limit) == s,
        utf8_len(cut(s, limit)) <= utf8_len(s),
    decreases s.len(),
{
    lemma_utf8_len(s);
    let n = fitting(s, limit) as int;
    if s.len() == 0 {
        assert(cut(s, limit) =~= s);
    } else {
        let kept = cut(s, limit);
        lemma_utf8_len(kept);
        if char_width(s[0]) > limit {
            let one = s.take(1);
            lemma_utf8_len(one);
            lemma_utf8_len(one.skip(1));
            assert(kept.len() == 0);
            assert(one[0] == s[0]);
        } else {
            let rest = s.skip(1);
            let left = (limit - char_width(s[0])) as nat;
            cutting_keeps_what_fits(rest, left);
            assert(kept.skip(1) =~= cut(rest, left));
            assert(kept[0] == s[0]);
            if n < s.len() {
                let more = s.take(n + 1);
                lemma_utf8_len(more);
                assert(more[0] == s[0]);
                assert(more.skip(1) =~= rest.take(n));
            }
            if cut(rest, left) == rest {
                assert(kept =~= s);
            }
            if kept == s {
                assert(cut(rest, left) =~= rest);
            }
        }
    }
}

/// Shortens a text to so many bytes, at the end of a character.
pub fn truncate_utf8(value: &mut String, limit: usize)
    ensures
        final(value)@ == cut(old(value)@, limit as nat),
{
    let chars = chars_of(value.as_str());
    let ghost whole = chars@;
    let mut out = String::new();
    let mut left: usize = limit;
    let mut i: usize = 0;
    assert(whole.skip(0) =~= whole);
    while i < chars.len() && width_of(chars[i]) <= left
        invariant
            i <= chars@.len(),
            chars@ == whole,
            out@ == whole.take(i as int),
            fitting(whole, limit as nat) == i + fitting(whole.skip(i as int), left as nat),
        decreases chars@.len() - i,
    {
        let ghost rest = whole.skip(i as int);
        assert(rest[0] == whole[i as int]);
        assert(rest.skip(1) =~= whole.skip(i + 1));
        left = left - width_of(chars[i]);
        out.push(chars[i]);
        assert(whole.take(i + 1) =~= whole.take(i as int).push(whole[i as int]));
        i = i + 1;
    }
    assert(fitting(whole.skip(i as int), left as nat) == 0) by {
        if i < whole.len() {
            assert(whole.skip(i as int)[0] == whole[i as int]);
        }
    }
    *value = out;
}

/// The texts one after the other, with `separator` between neighbours.
pub open spec fn joined(parts: Seq<Seq<char>>, separator: Seq<char>) -> Seq<char>
    decreases parts.len(),
{
    if parts.len() == 0 {
        Seq::empty()
    } else if parts.len() == 1 {
        parts[0]
    } else {
        joined(parts.drop_last(), separator) + separator + parts.last()
    }
}

/// The characters of each string of a list.
pub open spec fn texts(list: Seq<String>) -> Seq<Seq<char>> {
    Seq::new(list.len(), |i: int| list[i]@)
}

pub fn join(parts: &Vec<String>, separator: &str) -> (r: String)
    ensures
        r@ == joined(texts(parts@), separator@),
{
    let mut out = String::new();
    let mut i: usize = 0;
    while i < parts.len()
        invariant
            i <= parts@.len(),
            out@ == joined(texts(parts@).take(i as int), separator@),
        decreases parts@.len() - i,
    {
        let ghost done = texts(parts@).take(i as int);
        let ghost more = texts(parts@).take(i + 1);
        assert(more.drop_last() =~= done);
        if i > 0 {
            out.append(separator);
        }
        out.append(parts[i].as_str());
        assert(out@ =~= joined(more, separator@));
        i = i + 1;
    }
    assert(texts(parts@).take(parts@.len() as int) =~= texts(parts@));
    out
}

/// A copy of a list of strings.
pub fn copy_texts(list: &Vec<String>) -> (r: Vec<String>)
    ensures
        texts(r@) == texts(list@),
        r@ == list@,
{
    let mut out: Vec<String> = Vec::new();
    let mut i: usize = 0;
    while i < list.len()
        invariant
            i <= list@.len(),
            out@ == list@.take(i as int),
        decreases list@.len() - i,
    {
        out.push(list[i].clone());
        assert(list@.take(i + 1) =~= list@.take(i as int).push(list@[i as int]));
        i = i + 1;
    }
    assert(list@.take(list@.len() as int) =~= list@);
    out
}

/// Whether two lists hold the same texts in the same order.
pub fn same_texts(a: &Vec<String>, b: &Vec<String>) -> (r: bool)
    ensures
        r == (texts(a@) == texts(b@)),
{
    if a.len() != b.len() {
        assert(texts(a@).len() != texts(b@).len());
        return false;
    }
    let mut i: usize = 0;
    while i < a.len()
        invariant
            i <= a@.len(),
            a@.len() == b@.len(),
            forall|j: int| 0 <= j < i ==> #[trigger] a@[j]@ == b@[j]@,
        decreases a@.len() - i,
    {
        if !same_text(a[i].as_str(), b[i].as_str()) {
            assert(texts(a@)[i as int] != texts(b@)[i as int]);
            return false;
        }
        i = i + 1;
    }
    assert(texts(a@) =~= texts(b@));
    true
}

/// The text of an optional string.
pub open spec fn optional_text(value: Option<String>) -> Option<Seq<char>> {
    match value {
        Some(text) => Some(text@),
        None => None,
    }
}

pub fn same_optional(a: &Option<String>, b: &Option<String>) -> (r: bool)
    ensures
        r == (optional_text(*a) == optional_text(*b)),
{
    match (a, b) {
        (Some(x), Some(y)) => same_text(x.as_str(), y.as_str()),
        (None, None) => true,
        _ => false,
    }
}

pub fn copy_optional(value: &Option<String>) -> (r: Option<String>)
    ensures
        optional_text(r) == optional_text(*value),
        r == *value,
{
    match value {
        Some(text) => Some(text.clone()),
        None => None,
    }
}

/// Nothing but characters of a class was dropped from the front.
pub proof fn lemma_dropped_front(s: Seq<char>, class: spec_fn(char) -> bool)
    ensures
        forall|i: int|
            0 <= i < s.len() - trim_start_by(s, class).len() ==> class(#[trigger] s[i]),
    decreases s.len(),
{
    if s.len() > 0 && class(s[0]) {
        let rest = s.skip(1);
        lemma_dropped_front(rest, class);
        assert forall|i: int| 0 <= i < s.len() - trim_start_by(s, class).len() implies class(
            #[trigger] s[i],
        ) by {
            if i > 0 {
                assert(rest[i - 1] == s[i]);
            }
        }
    }
}

/// Nothing but characters of a class was dropped from the end.
pub proof fn lemma_dropped_back(s: Seq<char>, class: spec_fn(char) -> bool)
    ensures
        forall|i: int| trim_end_by(s, class).len() <= i < s.len() ==> class(#[trigger] s[i]),
    decreases s.len(),
{
    if s.len() > 0 && class(s.last()) {
        lemma_dropped_back(s.drop_last(), class);
        assert forall|i: int| trim_end_by(s, class).len() <= i < s.len() implies class(
            #[trigger] s[i],
        ) by {
            if i < s.len() - 1 {
                assert(s.drop_last()[i] == s[i]);
            }
        }
    }
}

/// A part of a text that stands at a place, with nothing but white space on both sides of it.
pub open spec fn stands_in_space(core: Seq<char>, s: Seq<char>, at: int) -> bool {
    &&& 0 <= at
    &&& at + core.len() <= s.len()
    &&& s.subrange(at, at + core.len()) == core
    &&& forall|i: int| 0 <= i < at ==> is_whitespace_char(#[trigger] s[i])
    &&& forall|i: int| at + core.len() <= i < s.len() ==> is_whitespace_char(#[trigger] s[i])
}

/// Trimming takes white space from both ends of a text, all of it, and nothing else; a text that
/// has none there stays what it is.
pub proof fn trimming_takes_white_space_only(s: Seq<char>)
    ensures
        exists|at: int| #[trigger] stands_in_space(trimmed(s), s, at),
        trimmed(s).len() > 0 ==> !is_whitespace_char(trimmed(s)[0]) && !is_whitespace_char(
            trimmed(s).last(),
        ),
        s.len() > 0 && !is_whitespace_char(s[0]) && !is_whitespace_char(s.last()) ==> trimmed(s)
            == s,
        trimmed(s).len() == 0 <==> forall|i: int|
            0 <= i < s.len() ==> is_whitespace_char(#[trigger] s[i]),
{
    let class = |c: char| is_whitespace_char(c);
    let front = trim_start_by(s, class);
    let core = trim_end_by(front, class);
    trimming_is_final(s);
    lemma_trim_start_shape(s, class);
    lemma_trim_end_shape(front, class);
    lemma_dropped_front(s, class);
    lemma_dropped_back(front, class);
    let at = s.len() - front.len();
    assert(s.subrange(at, at + core.len()) =~= core);
    assert forall|i: int| at + core.len() <= i < s.len() implies is_whitespace_char(
        #[trigger] s[i],
    ) by {
        assert(front[i - at] == s[i]);
        assert(class(front[i - at]));
    }
    assert forall|i: int| 0 <= i < at implies is_whitespace_char(#[trigger] s[i]) by {
        assert(class(s[i]));
    }
    assert(stands_in_space(core, s, at));
    if core.len() > 0 {
        assert(s[at] == core[0]);
    }
    if s.len() > 0 && !is_whitespace_char(s[0]) && !is_whitespace_char(s.last()) {
        assert(at == 0);
        assert(core.len() == s.len()) by {
            if core.len() < s.len() {
                assert(is_whitespace_char(s[s.len() - 1]));
            }
        }
        assert(core =~= s);
    }
}

/// The space, the tab and the line ends are white space; letters, digits and punctuation of ASCII
/// are not.
pub proof fn white_space_is_not_ink(c: char)
    ensures
        c == ' ' || c == '\t' || c == '\n' || c == '\r' ==> is_whitespace_char(c),
        '!' <= c <= '~' ==> !is_whitespace_char(c),
        c == '\u{a0}' || c == '\u{3000}' || c == '\u{2028}' ==> is_whitespace_char(c),
{
}

/// A letter of ASCII and its other case are told apart by nothing but case; other characters have
/// no case.
pub proof fn ascii_case_is_folded(c: char)
    ensures
        'A' <= c <= 'Z' ==> ascii_lower_char(c) as u32 == c as u32 + 32,
        !('A' <= c <= 'Z') ==> ascii_lower_char(c) == c,
        'a' <= c <= 'z' ==> ascii_upper_char(c) as u32 + 32 == c as u32,
        !('a' <= c <= 'z') ==> ascii_upper_char(c) == c,
        ascii_lower_char(ascii_lower_char(c)) == ascii_lower_char(c),
{
    if 'A' <= c <= 'Z' {
        assert(((c as u32 + 32) as u32) as char as u32 == c as u32 + 32);
    }
    if 'a' <= c <= 'z' {
        assert(((c as u32 - 32) as u32) as char as u32 == c as u32 - 32);
    }
}

/// Texts agree without case exactly where they are as long as each other and agree so in every
/// character.
pub proof fn texts_agree_character_by_character(a: Seq<char>, b: Seq<char>)
    ensures
        same_ignoring_case(a, b) <==> a.len() == b.len() && forall|i: int|
            0 <= i < a.len() ==> #[trigger] ascii_lower_char(a[i]) == ascii_lower_char(b[i]),
        same_ignoring_case(a, a),
        same_ignoring_case(a, b) == same_ignoring_case(b, a),
{
    if same_ignoring_case(a, b) {
        assert(ascii_lower(a).len() == a.len() && ascii_lower(b).len() == b.len());
        assert forall|i: int| 0 <= i < a.len() implies #[trigger] ascii_lower_char(a[i])
            == ascii_lower_char(b[i]) by {
            assert(ascii_lower(a)[i] == ascii_lower(b)[i]);
        }
    }
    if a.len() == b.len() && forall|i: int|
        0 <= i < a.len() ==> #[trigger] ascii_lower_char(a[i]) == ascii_lower_char(b[i]) {
        assert(ascii_lower(a) =~= ascii_lower(b));
    }
}

/// A number is written digit by digit: the digits of all but its last, then that one; a number
/// below ten is its digit.
pub proof fn numbers_are_written_digit_by_digit(n: nat, d: nat)
    requires
        d < 10,
    ensures
        decimal(d).len() == 1 && decimal(d)[0] as u32 == '0' as u32 + d,
        n > 0 ==> decimal(10 * n + d) == decimal(n) + decimal(d),
{
    assert(digit_char(d as int) as u32 == '0' as u32 + d);
    if n > 0 {
        assert((10 * n + d) / 10 == n);
        assert((10 * n + d) % 10 == d);
        assert(decimal(10 * n + d) =~= decimal(n) + decimal(d));
    }
}

/// Texts are joined one after the other, with the separator between neighbours and nowhere else.
pub proof fn joining_goes_on(parts: Seq<Seq<char>>, separator: Seq<char>, more: Seq<char>)
    ensures
        joined(seq![more], separator) == more,
        joined(Seq::empty(), separator).len() == 0,
        parts.len() > 0 ==> joined(parts.push(more), separator) == joined(parts, separator)
            + separator + more,
{
    if parts.len() > 0 {
        assert(parts.push(more).drop_last() =~= parts);
    }
}

} // verus!
