//! The header fields of an opening handshake: names with their values.

use crate::text::{
    ascii_lowercase, lemma_split_once_joined, lines, lowercase, occurs, push_text, split_around,
    split_once, string_of, texts,
};
use vstd::prelude::*;

verus! {

/// Header fields in the order in which their names were first inserted. A
/// name has one value: inserting under a name that is present replaces its
/// value and leaves the name in its place.
#[derive(Debug)]
pub struct Headers {
    entries: Vec<(String, String)>,
}

/// The position of the first entry at or after `from` with the name `key`.
pub open spec fn position_from(
    entries: Seq<(Seq<char>, Seq<char>)>,
    key: Seq<char>,
    from: int,
) -> Option<int>
    decreases entries.len() - from,
{
    if from < 0 || from >= entries.len() {
        None
    } else if entries[from].0 == key {
        Some(from)
    } else {
        position_from(entries, key, from + 1)
    }
}

/// The value that stands with the name `key`.
pub open spec fn lookup(entries: Seq<(Seq<char>, Seq<char>)>, key: Seq<char>) -> Option<Seq<char>> {
    match position_from(entries, key, 0) {
        Some(at) => Some(entries[at].1),
        None => None,
    }
}

/// The map from names to values that a list of entries stands for.
pub open spec fn map_of(entries: Seq<(Seq<char>, Seq<char>)>) -> Map<Seq<char>, Seq<char>> {
    Map::new(
        |key: Seq<char>| lookup(entries, key) is Some,
        |key: Seq<char>| lookup(entries, key)->0,
    )
}

/// The entries after `key` has been given the value `value`: in place where
/// the name is present, at the end where it is new.
pub open spec fn inserted(
    entries: Seq<(Seq<char>, Seq<char>)>,
    key: Seq<char>,
    value: Seq<char>,
) -> Seq<(Seq<char>, Seq<char>)> {
    match position_from(entries, key, 0) {
        Some(at) => entries.update(at, (key, value)),
        None => entries.push((key, value)),
    }
}

/// The text `": "` that parts a header's name from its value.
pub open spec fn field_separator() -> Seq<char> {
    seq![':', ' ']
}

/// A header field as a line: the name, `": "`, and the value.
pub open spec fn field_line(field: (Seq<char>, Seq<char>)) -> Seq<char> {
    field.0 + field_separator() + field.1
}

/// The lines of header fields, in their order.
pub open spec fn field_lines(fields: Seq<(Seq<char>, Seq<char>)>) -> Seq<Seq<char>> {
    Seq::new(fields.len(), |i: int| field_line(fields[i]))
}

/// The entries after one more header line has been read: a line with `": "`
/// in it gives the text before, in lower case, as the name and the text
/// after as the value; any other line gives nothing.
pub open spec fn with_header_line(entries: Seq<(Seq<char>, Seq<char>)>, line: Seq<char>) -> Seq<
    (Seq<char>, Seq<char>),
> {
    match split_once(line, field_separator()) {
        Some((name, value)) => inserted(entries, ascii_lowercase(name), value),
        None => entries,
    }
}

/// The entries read from the lines at and after `from`, up to the first
/// empty line, added to those read so far.
pub open spec fn headers_from(
    lines: Seq<Seq<char>>,
    from: int,
    entries: Seq<(Seq<char>, Seq<char>)>,
) -> Seq<(Seq<char>, Seq<char>)>
    decreases lines.len() - from,
{
    if from < 0 || from >= lines.len() || lines[from].len() == 0 {
        entries
    } else {
        headers_from(lines, from + 1, with_header_line(entries, lines[from]))
    }
}

/// The header fields of a request or an answer: those of the lines after
/// the first, up to the first empty line.
pub open spec fn header_fields(text: Seq<char>) -> Seq<(Seq<char>, Seq<char>)> {
    headers_from(lines(text), 1, Seq::empty())
}

/// A header line splits into its name and its value, where the name holds
/// no colon.
pub proof fn lemma_field_line_splits(name: Seq<char>, value: Seq<char>)
    requires
        !name.contains(':'),
    ensures
        split_once(field_line((name, value)), field_separator()) == Some((name, value)),
        field_line((name, value)).len() > 0,
{
    let line = name + field_separator() + value;
    assert forall|j: int| 0 <= j < name.len() implies !occurs(line, field_separator(), j) by {
        if occurs(line, field_separator(), j) {
            assert(line.subrange(j, j + 2)[0] == ':');
            assert(name[j] == ':');
        }
    }
    lemma_split_once_joined(name, field_separator(), value);
}

/// A header line that is read adds its field, the name in lower case.
pub proof fn lemma_header_line_read(
    lines: Seq<Seq<char>>,
    at: int,
    entries: Seq<(Seq<char>, Seq<char>)>,
    name: Seq<char>,
    value: Seq<char>,
)
    requires
        0 <= at < lines.len(),
        lines[at] == field_line((name, value)),
        !name.contains(':'),
    ensures
        headers_from(lines, at, entries) == headers_from(
            lines,
            at + 1,
            inserted(entries, ascii_lowercase(name), value),
        ),
{
    lemma_field_line_splits(name, value);
}

/// A name that no entry has is not found, and a field under it goes to the
/// end.
pub proof fn lemma_inserted_new(
    entries: Seq<(Seq<char>, Seq<char>)>,
    key: Seq<char>,
    value: Seq<char>,
)
    requires
        forall|j: int| 0 <= j < entries.len() ==> (#[trigger] entries[j]).0 != key,
    ensures
        lookup(entries, key) is None,
        inserted(entries, key, value) == entries.push((key, value)),
{
    lemma_position(entries, key, 0);
}

/// The first entry with a name gives the value that is found under it.
pub proof fn lemma_lookup_at(entries: Seq<(Seq<char>, Seq<char>)>, key: Seq<char>, at: int)
    requires
        0 <= at < entries.len(),
        entries[at].0 == key,
        forall|j: int| 0 <= j < at ==> (#[trigger] entries[j]).0 != key,
    ensures
        lookup(entries, key) == Some(entries[at].1),
        map_of(entries).contains_key(key),
        map_of(entries)[key] == entries[at].1,
{
    lemma_position_is(entries, key, 0, at);
}

/// What a search for a name finds: the first entry with that name.
pub proof fn lemma_position(entries: Seq<(Seq<char>, Seq<char>)>, key: Seq<char>, from: int)
    requires
        0 <= from,
    ensures
        match position_from(entries, key, from) {
            Some(at) => from <= at < entries.len() && entries[at].0 == key && forall|j: int|
                from <= j < at ==> entries[j].0 != key,
            None => forall|j: int| from <= j < entries.len() ==> entries[j].0 != key,
        },
    decreases entries.len() - from,
{
    if from < entries.len() && entries[from].0 != key {
        lemma_position(entries, key, from + 1);
    }
}

/// The first entry with a name is what a search for the name finds.
proof fn lemma_position_is(entries: Seq<(Seq<char>, Seq<char>)>, key: Seq<char>, from: int, at: int)
    requires
        0 <= from <= at < entries.len(),
        entries[at].0 == key,
        forall|j: int| from <= j < at ==> entries[j].0 != key,
    ensures
        position_from(entries, key, from) == Some(at),
    decreases at - from,
{
    if from < at {
        lemma_position_is(entries, key, from + 1, at);
    }
}

/// Giving a name a value changes what stands with that name and with no
/// other.
pub proof fn lemma_inserted_map(
    entries: Seq<(Seq<char>, Seq<char>)>,
    key: Seq<char>,
    value: Seq<char>,
)
    ensures
        map_of(inserted(entries, key, value)) == map_of(entries).insert(key, value),
{
    let after = inserted(entries, key, value);
    lemma_position(entries, key, 0);
    assert forall|other: Seq<char>|
        lookup(after, other) == if other == key {
            Some(value)
        } else {
            lookup(entries, other)
        } by {
        lemma_position(entries, other, 0);
        match position_from(entries, key, 0) {
            Some(at) => {
                if other == key {
                    lemma_position_is(after, key, 0, at);
                } else {
                    match position_from(entries, other, 0) {
                        Some(found) => {
                            lemma_position_is(after, other, 0, found);
                        },
                        None => {
                            lemma_position(after, other, 0);
                        },
                    }
                }
            },
            None => {
                if other == key {
                    lemma_position_is(after, key, 0, entries.len() as int);
                } else {
                    match position_from(entries, other, 0) {
                        Some(found) => {
                            lemma_position_is(after, other, 0, found);
                        },
                        None => {
                            lemma_position(after, other, 0);
                        },
                    }
                }
            },
        }
    }
    assert(map_of(after) =~= map_of(entries).insert(key, value));
}

impl Headers {
    /// The entries as pairs of texts, in their order.
    pub closed spec fn entries(&self) -> Seq<(Seq<char>, Seq<char>)> {
        Seq::new(self.entries@.len(), |i: int| (self.entries@[i].0@, self.entries@[i].1@))
    }

    /// No fields.
    pub fn new() -> (headers: Headers)
        ensures
            headers.entries() == Seq::<(Seq<char>, Seq<char>)>::empty(),
            headers@ == Map::<Seq<char>, Seq<char>>::empty(),
    {
        let headers = Headers { entries: Vec::new() };
        assert(headers.entries() =~= Seq::<(Seq<char>, Seq<char>)>::empty());
        assert(headers@ =~= Map::<Seq<char>, Seq<char>>::empty());
        headers
    }

    /// How many fields there are.
    pub fn len(&self) -> (count: usize)
        ensures
            count == self.entries().len(),
    {
        self.entries.len()
    }

    /// The name of the field at a position.
    pub fn name_at(&self, index: usize) -> (name: &String)
        requires
            index < self.entries().len(),
        ensures
            name@ == self.entries()[index as int].0,
    {
        &self.entries[index].0
    }

    /// The value of the field at a position.
    pub fn value_at(&self, index: usize) -> (value: &String)
        requires
            index < self.entries().len(),
        ensures
            value@ == self.entries()[index as int].1,
    {
        &self.entries[index].1
    }

    /// The position of the entry with the given name.
    fn position(&self, key: &String) -> (found: Option<usize>)
        ensures
            match found {
                Some(at) => position_from(self.entries(), key@, 0) == Some(at as int) && at
                    < self.entries().len(),
                None => position_from(self.entries(), key@, 0) is None,
            },
    {
        let mut at: usize = 0;
        while at < self.entries.len()
            invariant
                at <= self.entries@.len(),
                self.entries().len() == self.entries@.len(),
                position_from(self.entries(), key@, 0) == position_from(
                    self.entries(),
                    key@,
                    at as int,
                ),
            decreases self.entries@.len() - at,
        {
            if self.entries[at].0 == *key {
                return Some(at);
            }
            at += 1;
        }
        None
    }

    /// The value of the field with the given name, if there is one.
    pub fn get(&self, key: &str) -> (value: Option<&String>)
        ensures
            match value {
                Some(v) => lookup(self.entries(), key@) == Some(v@),
                None => lookup(self.entries(), key@) is None,
            },
            value is Some <==> self@.contains_key(key@),
            value matches Some(v) ==> self@[key@] == v@,
    {
        let owned = key.to_owned();
        match self.position(&owned) {
            Some(at) => Some(&self.entries[at].1),
            None => None,
        }
    }

    /// Gives `key` the value `value`, whether or not `key` had one. A new
    /// name goes to the end; a name that is present keeps its place.
    pub fn insert(&mut self, key: String, value: String)
        ensures
            final(self).entries() == inserted(old(self).entries(), key@, value@),
            final(self)@ == old(self)@.insert(key@, value@),
    {
        proof {
            lemma_inserted_map(self.entries(), key@, value@);
        }
        let ghost before = self.entries();
        let ghost pair = (key@, value@);
        match self.position(&key) {
            Some(at) => {
                self.entries.set(at, (key, value));
                assert(self.entries() =~= before.update(at as int, pair));
            },
            None => {
                self.entries.push((key, value));
                assert(self.entries() =~= before.push(pair));
            },
        }
    }

    /// The field at a position as a line.
    pub fn line_at(&self, index: usize) -> (line: Vec<char>)
        requires
            index < self.entries().len(),
        ensures
            line@ == field_line(self.entries()[index as int]),
    {
        let mut line: Vec<char> = Vec::new();
        push_text(&mut line, self.entries[index].0.as_str());
        line.push(':');
        line.push(' ');
        push_text(&mut line, self.entries[index].1.as_str());
        assert(line@ =~= field_line(self.entries()[index as int]));
        line
    }

    /// The fields that the lines at and after `from` give, up to the first
    /// empty line.
    pub fn parse(lines: &Vec<Vec<char>>, from: usize) -> (headers: Headers)
        ensures
            headers.entries() == headers_from(texts(lines@), from as int, Seq::empty()),
    {
        let mut headers = Headers::new();
        let separator = [':', ' '];
        assert(separator@ =~= field_separator());
        let mut at: usize = from;
        while at < lines.len() && lines[at].len() != 0
            invariant
                from <= at,
                separator@ == field_separator(),
                headers_from(texts(lines@), from as int, Seq::empty()) == headers_from(
                    texts(lines@),
                    at as int,
                    headers.entries(),
                ),
            decreases lines@.len() - at,
        {
            match split_around(lines[at].as_slice(), separator.as_slice()) {
                Some((name, value)) => {
                    let lower = lowercase(name);
                    headers.insert(string_of(lower.as_slice()), string_of(value));
                },
                None => {},
            }
            at += 1;
        }
        headers
    }
}

impl View for Headers {
    type V = Map<Seq<char>, Seq<char>>;

    open spec fn view(&self) -> Map<Seq<char>, Seq<char>> {
        map_of(self.entries())
    }
}

} // verus!
