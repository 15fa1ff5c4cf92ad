//! JSON as it is written to result files: two spaces per level, one member or item per line.
use vstd::prelude::*;

use crate::text::{decimal, decimal_string, hex_digit, join, joined, texts};

verus! {

/// How a character stands inside a JSON string.
pub open spec fn escape_of(c: char) -> Seq<char> {
    let code = c as u32;
    if c == '"' {
        seq!['\\', '"']
    } else if c == '\\' {
        seq!['\\', '\\']
    } else if code == 8 {
        seq!['\\', 'b']
    } else if code == 9 {
        seq!['\\', 't']
    } else if code == 10 {
        seq!['\\', 'n']
    } else if code == 12 {
        seq!['\\', 'f']
    } else if code == 13 {
        seq!['\\', 'r']
    } else if code < 0x20 {
        seq!['\\', 'u', '0', '0', hex_digit(code as int / 16), hex_digit(code as int % 16)]
    } else {
        seq![c]
    }
}

pub open spec fn escaped(text: Seq<char>) -> Seq<char>
    decreases text.len(),
{
    if text.len() == 0 {
        Seq::empty()
    } else {
        escaped(text.drop_last()) + escape_of(text.last())
    }
}

/// A JSON string.
pub open spec fn quoted(text: Seq<char>) -> Seq<char> {
    seq!['"'] + escaped(text) + seq!['"']
}

/// Writes a JSON string with `serde_json::to_string`: quotes around the text, with quotes,
/// backslashes and the characters below U+0020 escaped. Writing into memory does not fail.
#[verifier::external_body]
pub(crate) fn quote(text: &str) -> (r: String)
    ensures
        r@ == quoted(text@),
{
    serde_json::to_string(text).unwrap_or_default()
}

/// The texts in an array as it is written on one line.
pub open spec fn array_text(items: Seq<Seq<char>>) -> Seq<char> {
    "["@ + joined(Seq::new(items.len(), |i: int| quoted(items[i])), ","@) + "]"@
}

/// Writes an array of strings with `serde_json::to_string`: the strings as `quote` writes them,
/// with commas between them and brackets around them. Writing into memory does not fail.
#[verifier::external_body]
pub(crate) fn write_array(items: &Vec<String>) -> (r: String)
    ensures
        r@ == array_text(texts(items@)),
{
    serde_json::to_string(items).unwrap_or_default()
}

/// The texts that `serde_json::from_str` reads from an array; none where the text is no array of
/// strings.
pub uninterp spec fn array_in(text: Seq<char>) -> Option<Seq<Seq<char>>>;

/// Reads an array of strings with `serde_json::from_str`; the outcome depends on the text alone.
/// An array in the form in which `serde_json::to_string` writes it gives the strings in it.
#[verifier::external_body]
pub(crate) fn read_array(text: &str) -> (r: Option<Vec<String>>)
    ensures
        match r {
            Some(items) => array_in(text@) == Some(texts(items@)) && forall|list: Seq<Seq<char>>|
                text@ == #[trigger] array_text(list) ==> texts(items@) == list,
            None => array_in(text@) is None && forall|list: Seq<Seq<char>>|
                text@ != #[trigger] array_text(list),
        },
{
    serde_json::from_str(text).ok()
}

/// A number with its sign.
pub open spec fn signed(n: int) -> Seq<char> {
    if n < 0 {
        "-"@ + decimal((-n) as nat)
    } else {
        decimal(n as nat)
    }
}

pub fn signed_string(n: i32) -> (r: String)
    ensures
        r@ == signed(n as int),
{
    if n < 0 {
        let mut out = "-".to_owned();
        out.append(decimal_string((-(n as i64)) as u64).as_str());
        out
    } else {
        decimal_string(n as u64)
    }
}

pub open spec fn truth(value: bool) -> Seq<char> {
    if value {
        "true"@
    } else {
        "false"@
    }
}

pub fn truth_text(value: bool) -> (r: &'static str)
    ensures
        r@ == truth(value),
{
    if value {
        "true"
    } else {
        "false"
    }
}

/// The white space in front of a line.
pub open spec fn pad(level: nat) -> Seq<char>
    decreases level,
{
    if level == 0 {
        Seq::empty()
    } else {
        pad((level - 1) as nat) + "  "@
    }
}

pub fn padding(level: usize) -> (r: String)
    ensures
        r@ == pad(level as nat),
    decreases level,
{
    if level == 0 {
        let out = String::new();
        assert(out@ =~= pad(0));
        out
    } else {
        let mut out = padding(level - 1);
        out.append("  ");
        out
    }
}

/// A member of an object that stands at a level.
pub open spec fn member(level: nat, key: Seq<char>, value: Seq<char>) -> Seq<char> {
    pad(level + 1) + "\""@ + key + "\": "@ + value
}

/// Lines between brackets; the brackets alone when there are none.
pub open spec fn bracketed(
    level: nat,
    left: Seq<char>,
    lines: Seq<Seq<char>>,
    right: Seq<char>,
) -> Seq<char> {
    if lines.len() == 0 {
        left + right
    } else {
        left + "\n"@ + joined(lines, ",\n"@) + "\n"@ + pad(level) + right
    }
}

pub open spec fn object(level: nat, members: Seq<Seq<char>>) -> Seq<char> {
    bracketed(level, "{"@, members, "}"@)
}

/// A list at a level, of items as they stand one level further in.
pub open spec fn list(level: nat, items: Seq<Seq<char>>) -> Seq<char> {
    bracketed(
        level,
        "["@,
        Seq::new(items.len(), |i: int| pad(level + 1) + items[i]),
        "]"@,
    )
}

/// The member when there is a value, and nothing otherwise.
pub open spec fn optional(level: nat, key: Seq<char>, value: Option<Seq<char>>) -> Seq<Seq<char>> {
    match value {
        Some(text) => seq![member(level, key, quoted(text))],
        None => Seq::empty(),
    }
}

/// The lines of an object or a list that is being written.
pub struct Lines {
    pub level: usize,
    pub lines: Vec<String>,
}

impl View for Lines {
    type V = Seq<Seq<char>>;

    open spec fn view(&self) -> Seq<Seq<char>> {
        texts(self.lines@)
    }
}

impl Lines {
    pub open spec fn inv(self) -> bool {
        self.level < 1000
    }

    pub fn new(level: usize) -> (r: Self)
        requires
            level < 1000,
        ensures
            r.inv(),
            r.level == level,
            r@ == Seq::<Seq<char>>::empty(),
    {
        let r = Lines { level, lines: Vec::new() };
        assert(r@ =~= Seq::<Seq<char>>::empty());
        r
    }

    fn add_line(&mut self, line: String)
        ensures
            final(self).level == old(self).level,
            final(self)@ == old(self)@.push(line@),
    {
        self.lines.push(line);
        assert(self@ =~= old(self)@.push(line@));
    }

    /// Adds a member whose value is written already.
    pub fn put(&mut self, key: &str, value: &str)
        requires
            old(self).inv(),
        ensures
            final(self).inv(),
            final(self).level == old(self).level,
            final(self)@ == old(self)@.push(member(old(self).level as nat, key@, value@)),
    {
        let mut line = padding(self.level + 1);
        line.append("\"");
        line.append(key);
        line.append("\": ");
        line.append(value);
        self.add_line(line);
    }

    pub fn put_text(&mut self, key: &str, value: &str)
        requires
            old(self).inv(),
        ensures
            final(self).inv(),
            final(self).level == old(self).level,
            final(self)@ == old(self)@.push(member(old(self).level as nat, key@, quoted(value@))),
    {
        let value = quote(value);
        self.put(key, value.as_str());
    }

    pub fn put_optional(&mut self, key: &str, value: &Option<String>)
        requires
            old(self).inv(),
        ensures
            final(self).inv(),
            final(self).level == old(self).level,
            final(self)@ == old(self)@ + optional(
                old(self).level as nat,
                key@,
                crate::text::optional_text(*value),
            ),
    {
        if let Some(text) = value {
            self.put_text(key, text.as_str());
        }
        assert(self@ =~= old(self)@ + optional(
            old(self).level as nat,
            key@,
            crate::text::optional_text(*value),
        ));
    }

    pub fn put_number(&mut self, key: &str, value: u64)
        requires
            old(self).inv(),
        ensures
            final(self).inv(),
            final(self).level == old(self).level,
            final(self)@ == old(self)@.push(
                member(old(self).level as nat, key@, decimal(value as nat)),
            ),
    {
        let value = decimal_string(value);
        self.put(key, value.as_str());
    }

    pub fn put_truth(&mut self, key: &str, value: bool)
        requires
            old(self).inv(),
        ensures
            final(self).inv(),
            final(self).level == old(self).level,
            final(self)@ == old(self)@.push(member(old(self).level as nat, key@, truth(value))),
    {
        self.put(key, truth_text(value));
    }

    /// Adds an item of a list that is written already.
    pub fn item(&mut self, value: &str)
        requires
            old(self).inv(),
        ensures
            final(self).inv(),
            final(self).level == old(self).level,
            final(self)@ == old(self)@.push(pad(old(self).level as nat + 1) + value@),
    {
        let mut line = padding(self.level + 1);
        line.append(value);
        self.add_line(line);
    }

    fn close(self, left: &str, right: &str) -> (r: String)
        ensures
            r@ == bracketed(self.level as nat, left@, self@, right@),
    {
        let mut out = left.to_owned();
        if self.lines.len() == 0 {
            out.append(right);
            return out;
        }
        out.append("\n");
        out.append(join(&self.lines, ",\n").as_str());
        out.append("\n");
        out.append(padding(self.level).as_str());
        out.append(right);
        out
    }

    pub fn into_object(self) -> (r: String)
        ensures
            r@ == object(self.level as nat, self@),
    {
        self.close("{", "}")
    }

    pub fn into_list(self) -> (r: String)
        ensures
            r@ == bracketed(self.level as nat, "["@, self@, "]"@),
    {
        self.close("[", "]")
    }
}

/// Texts as a list of JSON strings.
pub open spec fn text_list(level: nat, items: Seq<Seq<char>>) -> Seq<char> {
    list(level, Seq::new(items.len(), |i: int| quoted(items[i])))
}

pub fn write_text_list(level: usize, items: &Vec<String>) -> (r: String)
    requires
        level < 1000,
    ensures
        r@ == text_list(level as nat, texts(items@)),
{
    let mut lines = Lines::new(level);
    let ghost whole = Seq::new(
        items@.len(),
        |i: int| pad(level as nat + 1) + quoted(texts(items@)[i]),
    );
    let mut i: usize = 0;
    while i < items.len()
        invariant
            i <= items@.len(),
            lines.inv(),
            lines.level == level,
            whole == Seq::new(
                items@.len(),
                |i: int| pad(level as nat + 1) + quoted(texts(items@)[i]),
            ),
            lines@ == whole.take(i as int),
        decreases items@.len() - i,
    {
        let value = quote(items[i].as_str());
        lines.item(value.as_str());
        assert(lines@ =~= whole.take(i + 1));
        i = i + 1;
    }
    assert(whole.take(i as int) =~= whole);
    proof {
        let items = Seq::new(items@.len(), |i: int| quoted(texts(items@)[i]));
        assert(Seq::new(items.len(), |i: int| pad(level as nat + 1) + items[i]) =~= whole);
    }
    lines.into_list()
}

/// A text stands in another.
pub open spec fn has_part(text: Seq<char>, part: Seq<char>) -> bool {
    exists|front: Seq<char>, back: Seq<char>| text == #[trigger] (front + part + back)
}

/// A key stands in a text with this value.
pub open spec fn says(text: Seq<char>, key: Seq<char>, value: Seq<char>) -> bool {
    has_part(text, "\""@ + key + "\": "@ + value)
}

proof fn lemma_shows(text: Seq<char>, front: Seq<char>, part: Seq<char>, back: Seq<char>)
    requires
        text == front + part + back,
    ensures
        has_part(text, part),
{
    assert(text == front + part + back);
}

/// What stands in a part of a text stands in the text.
pub proof fn lemma_shows_within(text: Seq<char>, part: Seq<char>, inner: Seq<char>)
    requires
        has_part(text, part),
        has_part(part, inner),
    ensures
        has_part(text, inner),
{
    let (front, back) = choose|front: Seq<char>, back: Seq<char>|
        text == #[trigger] (front + part + back);
    let (left, right) = choose|left: Seq<char>, right: Seq<char>|
        part == #[trigger] (left + inner + right);
    assert(text =~= (front + left) + inner + (right + back));
    lemma_shows(text, front + left, inner, right + back);
}

proof fn lemma_joined_shows(parts: Seq<Seq<char>>, separator: Seq<char>, i: int)
    requires
        0 <= i < parts.len(),
    ensures
        has_part(joined(parts, separator), parts[i]),
    decreases parts.len(),
{
    let none = Seq::<char>::empty();
    if parts.len() == 1 {
        assert(joined(parts, separator) =~= none + parts[i] + none);
        lemma_shows(joined(parts, separator), none, parts[i], none);
    } else {
        let front = joined(parts.drop_last(), separator);
        if i == parts.len() - 1 {
            assert(joined(parts, separator) =~= (front + separator) + parts[i] + none);
            lemma_shows(joined(parts, separator), front + separator, parts[i], none);
        } else {
            lemma_joined_shows(parts.drop_last(), separator, i);
            assert(parts.drop_last()[i] == parts[i]);
            assert(joined(parts, separator) =~= none + front + (separator + parts.last()));
            lemma_shows(joined(parts, separator), none, front, separator + parts.last());
            lemma_shows_within(joined(parts, separator), front, parts[i]);
        }
    }
}

proof fn lemma_bracketed_shows(
    level: nat,
    left: Seq<char>,
    lines: Seq<Seq<char>>,
    right: Seq<char>,
    i: int,
)
    requires
        0 <= i < lines.len(),
    ensures
        has_part(bracketed(level, left, lines, right), lines[i]),
{
    let body = joined(lines, ",\n"@);
    let whole = bracketed(level, left, lines, right);
    lemma_joined_shows(lines, ",\n"@, i);
    assert(whole =~= (left + "\n"@) + body + ("\n"@ + pad(level) + right));
    lemma_shows(whole, left + "\n"@, body, "\n"@ + pad(level) + right);
    lemma_shows_within(whole, body, lines[i]);
}

/// Whatever is put into an object stands in it under its key with its value.
pub proof fn objects_say_what_was_put(
    level: nat,
    members: Seq<Seq<char>>,
    key: Seq<char>,
    value: Seq<char>,
)
    requires
        members.contains(member(level, key, value)),
    ensures
        says(object(level, members), key, value),
{
    let i = choose|i: int| 0 <= i < members.len() && members[i] == member(level, key, value);
    let none = Seq::<char>::empty();
    let part = "\""@ + key + "\": "@ + value;
    lemma_bracketed_shows(level, "{"@, members, "}"@, i);
    assert(member(level, key, value) =~= pad(level + 1) + part + none);
    lemma_shows(member(level, key, value), pad(level + 1), part, none);
    lemma_shows_within(object(level, members), members[i], part);
}

/// A member that says something else again says that too.
pub proof fn lemma_says_within(text: Seq<char>, key: Seq<char>, value: Seq<char>, part: Seq<char>)
    requires
        says(text, key, value),
        has_part(value, part),
    ensures
        has_part(text, part),
{
    let none = Seq::<char>::empty();
    let front = "\""@ + key + "\": "@;
    assert(front + value =~= front + value + none);
    lemma_shows(front + value, front, value, none);
    lemma_shows_within(text, front + value, value);
    lemma_shows_within(text, value, part);
}

/// Every item of a list stands in it.
pub proof fn lists_show_their_items(level: nat, items: Seq<Seq<char>>, i: int)
    requires
        0 <= i < items.len(),
    ensures
        has_part(list(level, items), items[i]),
{
    let lines = Seq::new(items.len(), |i: int| pad(level + 1) + items[i]);
    let none = Seq::<char>::empty();
    lemma_bracketed_shows(level, "["@, lines, "]"@, i);
    assert(lines[i] =~= pad(level + 1) + items[i] + none);
    lemma_shows(lines[i], pad(level + 1), items[i], none);
    lemma_shows_within(list(level, items), lines[i], items[i]);
}

/// A value that is there is put under its key, and nothing where it is not.
pub proof fn values_are_put_where_there_are_any(level: nat, key: Seq<char>, value: Seq<char>)
    ensures
        optional(level, key, Some(value)).contains(member(level, key, quoted(value))),
        optional(level, key, None).len() == 0,
{
    assert(optional(level, key, Some(value))[0] == member(level, key, quoted(value)));
}

/// A text in which nothing needs escaping stands in quotes as it is.
pub proof fn ordinary_text_is_written_as_it_is(text: Seq<char>)
    requires
        forall|i: int|
            0 <= i < text.len() ==> (#[trigger] text[i]) as u32 >= 32 && text[i] != '"' && text[i]
                != '\\',
    ensures
        quoted(text) == seq!['"'] + text + seq!['"'],
{
    lemma_plain(text);
}

proof fn lemma_plain(text: Seq<char>)
    requires
        forall|i: int|
            0 <= i < text.len() ==> (#[trigger] text[i]) as u32 >= 32 && text[i] != '"' && text[i]
                != '\\',
    ensures
        escaped(text) == text,
    decreases text.len(),
{
    if text.len() > 0 {
        let short = text.drop_last();
        assert forall|i: int| 0 <= i < short.len() implies (#[trigger] short[i]) as u32 >= 32
            && short[i] != '"' && short[i] != '\\' by {
            assert(short[i] == text[i]);
        }
        lemma_plain(short);
        assert(text[text.len() - 1] == text.last());
        assert(escaped(text) =~= text);
    } else {
        assert(escaped(text) =~= text);
    }
}

/// A number is written with a minus sign exactly where it is less than zero.
pub proof fn numbers_keep_their_sign(n: int)
    ensures
        n >= 0 ==> signed(n) == decimal(n as nat),
        n < 0 ==> signed(n) == "-"@ + decimal((-n) as nat),
        truth(true) == "true"@,
        truth(false) == "false"@,
{
}

/// What stands at some place among the members stands in the object.
pub proof fn lemma_says_at(
    level: nat,
    members: Seq<Seq<char>>,
    i: int,
    key: Seq<char>,
    value: Seq<char>,
)
    requires
        0 <= i < members.len(),
        members[i] == member(level, key, value),
    ensures
        says(object(level, members), key, value),
{
    assert(members.contains(member(level, key, value)));
    objects_say_what_was_put(level, members, key, value);
}

/// A value that there is, put between other members, stands in the object.
pub proof fn lemma_says_optional(
    level: nat,
    front: Seq<Seq<char>>,
    key: Seq<char>,
    value: Option<Seq<char>>,
    back: Seq<Seq<char>>,
)
    requires
        value is Some,
    ensures
        says(
            object(level, front + optional(level, key, value) + back),
            key,
            quoted(value->0),
        ),
{
    let members = front + optional(level, key, value) + back;
    assert(members[front.len() as int] == member(level, key, quoted(value->0)));
    lemma_says_at(level, members, front.len() as int, key, quoted(value->0));
}

} // verus!
