//! Fields, and the descriptors of spans and events.
use vstd::prelude::*;

use crate::level::Level;

verus! {

/// A field as it is reasoned about: its key and its rendered value.
pub type FieldView = (Seq<char>, Seq<char>);

/// An ordered list of key/value fields. Keys may repeat: each insertion adds
/// an entry, and the order of insertion is kept.
pub struct FieldSet {
    entries: Vec<(String, String)>,
}

impl View for FieldSet {
    type V = Seq<FieldView>;

    closed spec fn view(&self) -> Seq<FieldView> {
        self.entries@.map_values(|e: (String, String)| (e.0@, e.1@))
    }
}

/// The value of the first field of `fields`, from index `from` on, whose key
/// is `key`.
pub open spec fn first_value_from(fields: Seq<FieldView>, key: Seq<char>, from: int) -> Option<
    Seq<char>,
>
    decreases fields.len() - from,
{
    if from < 0 || from >= fields.len() {
        None
    } else if fields[from].0 == key {
        Some(fields[from].1)
    } else {
        first_value_from(fields, key, from + 1)
    }
}

/// The value of the first field of `fields` whose key is `key`.
pub open spec fn first_value(fields: Seq<FieldView>, key: Seq<char>) -> Option<Seq<char>> {
    first_value_from(fields, key, 0)
}

impl FieldSet {
    /// An empty field set.
    pub fn new() -> (r: FieldSet)
        ensures
            r@ == Seq::<FieldView>::empty(),
    {
        let r = FieldSet { entries: Vec::new() };
        assert(r@ =~= Seq::<FieldView>::empty());
        r
    }

    /// Appends a field, after every field already there.
    pub fn add(&mut self, key: &str, value: &str)
        ensures
            final(self)@ == old(self)@.push((key@, value@)),
    {
        let k = key.to_owned();
        let v = value.to_owned();
        self.entries.push((k, v));
        assert(self@ =~= old(self)@.push((key@, value@)));
    }

    /// The number of fields.
    pub fn len(&self) -> (r: usize)
        ensures
            r == self@.len(),
    {
        self.entries.len()
    }

    /// Whether there are no fields.
    pub fn is_empty(&self) -> (r: bool)
        ensures
            r == (self@.len() == 0),
    {
        self.entries.len() == 0
    }

    /// The value of the first field whose key is `key`.
    pub fn find(&self, key: &str) -> (r: Option<&str>)
        ensures
            first_value(self@, key@) is None ==> r is None,
            first_value(self@, key@) matches Some(v) ==> r matches Some(x) && x@ == v,
    {
        let k = key.to_owned();
        let mut i: usize = 0;
        while i < self.entries.len()
            invariant
                k@ == key@,
                i <= self@.len(),
                self@.len() == self.entries@.len(),
                first_value(self@, key@) == first_value_from(self@, key@, i as int),
            decreases self@.len() - i,
        {
            if self.entries[i].0 == k {
                return Some(self.entries[i].1.as_str());
            }
            i += 1;
        }
        None
    }

    /// The key of the field at `i`.
    pub fn key(&self, i: usize) -> (r: &str)
        requires
            i < self@.len(),
        ensures
            r@ == self@[i as int].0,
    {
        self.entries[i].0.as_str()
    }

    /// The value of the field at `i`.
    pub fn value(&self, i: usize) -> (r: &str)
        requires
            i < self@.len(),
        ensures
            r@ == self@[i as int].1,
    {
        self.entries[i].1.as_str()
    }
}

/// Where a span or event was created.
pub struct Location {
    pub file: String,
    pub line: u32,
}

/// The descriptor of a span: its fully qualified name (such as
/// `module::function`), its level, where it was created, and its fields.
pub struct SpanMetadata {
    pub name: String,
    pub location: Location,
    pub level: Level,
    pub fields: FieldSet,
}

/// The descriptor of an event: its message, its level, where it was emitted,
/// and its fields.
pub struct EventMetadata {
    pub message: String,
    pub location: Location,
    pub level: Level,
    pub fields: FieldSet,
}

impl SpanMetadata {
    /// A span descriptor without fields.
    pub fn new(name: &str, level: Level, file: &str, line: u32) -> (r: SpanMetadata)
        ensures
            r.name@ == name@,
            r.level == level,
            r.location.file@ == file@,
            r.location.line == line,
            r.fields@ == Seq::<FieldView>::empty(),
    {
        SpanMetadata {
            name: name.to_owned(),
            location: Location { file: file.to_owned(), line },
            level,
            fields: FieldSet::new(),
        }
    }

    /// The same descriptor with one more field, after the others.
    pub fn with_field(self, key: &str, value: &str) -> (r: SpanMetadata)
        ensures
            r.name == self.name,
            r.level == self.level,
            r.location == self.location,
            r.fields@ == self.fields@.push((key@, value@)),
    {
        let mut s = self;
        s.fields.add(key, value);
        s
    }
}

impl EventMetadata {
    /// An event descriptor without fields.
    pub fn new(message: &str, level: Level, file: &str, line: u32) -> (r: EventMetadata)
        ensures
            r.message@ == message@,
            r.level == level,
            r.location.file@ == file@,
            r.location.line == line,
            r.fields@ == Seq::<FieldView>::empty(),
    {
        EventMetadata {
            message: message.to_owned(),
            location: Location { file: file.to_owned(), line },
            level,
            fields: FieldSet::new(),
        }
    }

    /// The same descriptor with one more field, after the others.
    pub fn with_field(self, key: &str, value: &str) -> (r: EventMetadata)
        ensures
            r.message == self.message,
            r.level == self.level,
            r.location == self.location,
            r.fields@ == self.fields@.push((key@, value@)),
    {
        let mut e = self;
        e.fields.add(key, value);
        e
    }
}

} // verus!
