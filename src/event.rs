//! Server-sent event text: encoding a lifecycle signal, and reading the fields
//! of an event back.
use vstd::prelude::*;
use vstd::string::{StrSliceExecFns, StringExecFns};
use crate::model::CardEvent;

verus! {

/// The text of an optional field, views taken.
pub open spec fn opt_view<'a>(o: Option<&'a str>) -> Option<Seq<char>> {
    match o {
        Some(s) => Some(s@),
        None => None,
    }
}

/// Something that can be sent as an event: an id, an event name and data, each
/// optional.
pub trait EventTrait<'a> {
    spec fn spec_id(&self) -> Option<&'a str>;

    spec fn spec_event(&self) -> Option<&'a str>;

    spec fn spec_data(&self) -> Option<&'a str>;

    fn get_id(&self) -> (r: Option<&'a str>)
        ensures
            r == self.spec_id(),
    ;

    fn get_event(&self) -> (r: Option<&'a str>)
        ensures
            r == self.spec_event(),
    ;

    fn get_data(&self) -> (r: Option<&'a str>)
        ensures
            r == self.spec_data(),
    ;
}

impl<'a> EventTrait<'a> for CardEvent {
    open spec fn spec_id(&self) -> Option<&'a str> {
        None
    }

    open spec fn spec_event(&self) -> Option<&'a str> {
        Some(
            match self {
                CardEvent::Inserted => "insert",
                CardEvent::Removed => "remove",
                CardEvent::Updated => "update",
            },
        )
    }

    open spec fn spec_data(&self) -> Option<&'a str> {
        None
    }

    fn get_id(&self) -> (r: Option<&'a str>) {
        None
    }

    fn get_event(&self) -> (r: Option<&'a str>) {
        Some(
            match self {
                CardEvent::Inserted => "insert",
                CardEvent::Removed => "remove",
                CardEvent::Updated => "update",
            },
        )
    }

    fn get_data(&self) -> (r: Option<&'a str>) {
        None
    }
}

/// One field line: `label` and the value, then a line break; nothing when absent.
pub open spec fn field_text(label: Seq<char>, v: Option<Seq<char>>) -> Seq<char> {
    match v {
        Some(x) => label + x + "\n"@,
        None => Seq::empty(),
    }
}

/// The event-stream text of the three fields: one line per present field, and a
/// blank line closing the event unless no field is present.
pub open spec fn event_text(id: Option<Seq<char>>, event: Option<Seq<char>>, data: Option<Seq<char>>) -> Seq<char> {
    let body = field_text("id: "@, id) + field_text("event: "@, event) + field_text("data: "@, data);
    if id is Some || event is Some || data is Some {
        body + "\n"@
    } else {
        body
    }
}

/// An event to be sent.
pub struct Event<T> {
    pub inner: T,
}

fn append_field(out: &mut String, label: &str, v: Option<&str>)
    ensures
        final(out)@ == old(out)@ + field_text(label@, opt_view(v)),
{
    match v {
        Some(x) => {
            out.append(label);
            out.append(x);
            out.append("\n");
        },
        None => {
            assert(old(out)@ + Seq::<char>::empty() == old(out)@);
        },
    }
}

impl<T> Event<T> {
    /// Wraps `val` for sending.
    pub fn new(val: T) -> (r: Event<T>)
        ensures
            r.inner == val,
    {
        Event { inner: val }
    }

    /// The event-stream text of the event.
    pub fn to_text<'a>(&self) -> (r: String)
        where
            T: EventTrait<'a>,
        ensures
            r@ == event_text(
                opt_view(self.inner.spec_id()),
                opt_view(self.inner.spec_event()),
                opt_view(self.inner.spec_data()),
            ),
    {
        let id = self.inner.get_id();
        let event = self.inner.get_event();
        let data = self.inner.get_data();
        let mut out = String::new();
        append_field(&mut out, "id: ", id);
        append_field(&mut out, "event: ", event);
        append_field(&mut out, "data: ", data);
        if id.is_some() || event.is_some() || data.is_some() {
            out.append("\n");
        }
        proof {
            let b = field_text("id: "@, opt_view(id)) + field_text("event: "@, opt_view(event)) + field_text("data: "@, opt_view(data));
            assert(Seq::<char>::empty() + field_text("id: "@, opt_view(id)) + field_text("event: "@, opt_view(event))
                + field_text("data: "@, opt_view(data)) == b);
        }
        out
    }

    /// Reads the fields of an event from its text (see `parsed_fields`).
    pub fn parse<'a>(text: &'a str) -> (r: EventBuilder<'a>)
        ensures
            (opt_view(r.id), opt_view(r.event), opt_view(r.data)) == parsed_fields(text@),
    {
        parse_event(text)
    }
}

/// The fields of an event as they are read or set one by one.
pub struct EventBuilder<'a> {
    pub id: Option<&'a str>,
    pub event: Option<&'a str>,
    pub data: Option<&'a str>,
}

impl<'a> EventBuilder<'a> {
    /// No field set.
    pub fn new() -> (r: EventBuilder<'a>)
        ensures
            r.id is None,
            r.event is None,
            r.data is None,
    {
        EventBuilder { id: None, event: None, data: None }
    }

    pub fn with_id(self, id: &'a str) -> (r: EventBuilder<'a>)
        ensures
            r == (EventBuilder { id: Some(id), ..self }),
    {
        EventBuilder { id: Some(id), ..self }
    }

    pub fn set_id(&mut self, id: &'a str)
        ensures
            *final(self) == (EventBuilder { id: Some(id), ..*old(self) }),
    {
        self.id = Some(id);
    }

    pub fn with_event(self, event: &'a str) -> (r: EventBuilder<'a>)
        ensures
            r == (EventBuilder { event: Some(event), ..self }),
    {
        EventBuilder { event: Some(event), ..self }
    }

    pub fn set_event(&mut self, event: &'a str)
        ensures
            *final(self) == (EventBuilder { event: Some(event), ..*old(self) }),
    {
        self.event = Some(event);
    }

    pub fn with_data(self, data: &'a str) -> (r: EventBuilder<'a>)
        ensures
            r == (EventBuilder { data: Some(data), ..self }),
    {
        EventBuilder { data: Some(data), ..self }
    }

    pub fn set_data(&mut self, data: &'a str)
        ensures
            *final(self) == (EventBuilder { data: Some(data), ..*old(self) }),
    {
        self.data = Some(data);
    }
}

impl<'a> EventTrait<'a> for EventBuilder<'a> {
    open spec fn spec_id(&self) -> Option<&'a str> {
        self.id
    }

    open spec fn spec_event(&self) -> Option<&'a str> {
        self.event
    }

    open spec fn spec_data(&self) -> Option<&'a str> {
        self.data
    }

    fn get_id(&self) -> (r: Option<&'a str>) {
        self.id
    }

    fn get_event(&self) -> (r: Option<&'a str>) {
        self.event
    }

    fn get_data(&self) -> (r: Option<&'a str>) {
        self.data
    }
}

/// Fields read so far: id, event name, data.
pub type Fields = (Option<Seq<char>>, Option<Seq<char>>, Option<Seq<char>>);

/// The position of the first `c` in `s`, if any.
#[verifier::opaque]
pub open spec fn first_index_of(s: Seq<char>, c: char) -> Option<int> {
    if exists|i: int| 0 <= i < s.len() && s[i] == c {
        Some(choose|i: int| 0 <= i < s.len() && s[i] == c && forall|j: int| 0 <= j < i ==> s[j] != c)
    } else {
        None
    }
}

/// What one line contributes: `key:value` with a non-empty value sets the field
/// `id`, `event` or `data`; any other line changes nothing.
#[verifier::opaque]
pub open spec fn apply_line(f: Fields, line: Seq<char>) -> Fields {
    match first_index_of(line, ':') {
        None => f,
        Some(p) => {
            let key = line.take(p);
            let value = line.skip(p + 1);
            if value.len() == 0 {
                f
            } else if key == seq!['i', 'd'] {
                (Some(value), f.1, f.2)
            } else if key == seq!['e', 'v', 'e', 'n', 't'] {
                (f.0, Some(value), f.2)
            } else if key == seq!['d', 'a', 't', 'a'] {
                (f.0, f.1, Some(value))
            } else {
                f
            }
        },
    }
}

/// The fields read from `rest`, line by line, starting from `f`.
pub open spec fn fields_from(rest: Seq<char>, f: Fields) -> Fields
    decreases rest.len(),
{
    match first_index_of(rest, '\n') {
        None => apply_line(f, rest),
        Some(p) => if 0 <= p < rest.len() {
            fields_from(rest.skip(p + 1), apply_line(f, rest.take(p)))
        } else {
            f
        },
    }
}

/// The fields of an event text: lines are separated by line breaks, and a later
/// line overrides an earlier one.
pub open spec fn parsed_fields(text: Seq<char>) -> Fields {
    fields_from(text, (None, None, None))
}

proof fn lemma_first_index(s: Seq<char>, c: char, p: int)
    requires
        0 <= p < s.len(),
        s[p] == c,
        forall|j: int| 0 <= j < p ==> s[j] != c,
    ensures
        first_index_of(s, c) == Some(p),
{
    reveal(first_index_of);
    let q = choose|i: int| 0 <= i < s.len() && s[i] == c && forall|j: int| 0 <= j < i ==> s[j] != c;
    assert(q == p) by {
        if q < p {
            assert(s[q] != c);
        } else if q > p {
            assert(s[p] != c);
        }
    }
}

fn key_matches(chars: &Vec<char>, from: usize, to: usize, key: &Vec<char>) -> (r: bool)
    requires
        from <= to <= chars.len(),
    ensures
        r == (chars@.subrange(from as int, to as int) == key@),
{
    if to - from != key.len() {
        proof {
            assert(chars@.subrange(from as int, to as int).len() != key@.len());
        }
        return false;
    }
    let mut i: usize = 0;
    while i < key.len()
        invariant
            to - from == key.len(),
            from <= to <= chars.len(),
            i <= key.len(),
            forall|j: int| 0 <= j < i ==> chars@[from + j] == key@[j],
        decreases key.len() - i,
    {
        if chars[from + i] != key[i] {
            proof {
                assert(chars@.subrange(from as int, to as int)[i as int] != key@[i as int]);
            }
            return false;
        }
        i = i + 1;
    }
    assert(chars@.subrange(from as int, to as int) =~= key@);
    true
}

proof fn lemma_first_index_none(s: Seq<char>, c: char)
    requires
        forall|j: int| 0 <= j < s.len() ==> s[j] != c,
    ensures
        first_index_of(s, c) is None,
{
    reveal(first_index_of);
}

proof fn lemma_fields_step(text: Seq<char>, start: int, i: int, f: Fields)
    requires
        0 <= start <= i < text.len(),
        text[i] == '\n',
        forall|j: int| start <= j < i ==> text[j] != '\n',
    ensures
        fields_from(text.skip(start), f) == fields_from(text.skip(i + 1), apply_line(f, text.subrange(start, i))),
{
    let rest = text.skip(start);
    lemma_first_index(rest, '\n', i - start);
    assert(rest.take(i - start) == text.subrange(start, i));
    assert(rest.skip(i - start + 1) == text.skip(i + 1));
}

proof fn lemma_fields_last(text: Seq<char>, start: int, f: Fields)
    requires
        0 <= start <= text.len(),
        forall|j: int| start <= j < text.len() ==> text[j] != '\n',
    ensures
        fields_from(text.skip(start), f) == apply_line(f, text.subrange(start, text.len() as int)),
{
    let rest = text.skip(start);
    assert(rest == text.subrange(start, text.len() as int));
    lemma_first_index_none(rest, '\n');
}

#[verifier::rlimit(30)]
fn read_line<'a>(
    b: &mut EventBuilder<'a>,
    text: &'a str,
    chars: &Vec<char>,
    key_id: &Vec<char>,
    key_event: &Vec<char>,
    key_data: &Vec<char>,
    start: usize,
    colon: Option<usize>,
    end: usize,
)
    requires
        chars@ == text@,
        start <= end <= text@.len(),
        key_id@ == seq!['i', 'd'],
        key_event@ == seq!['e', 'v', 'e', 'n', 't'],
        key_data@ == seq!['d', 'a', 't', 'a'],
        match colon {
            Some(p) => start <= p < end && text@[p as int] == ':' && forall|j: int| start <= j < p ==> text@[j] != ':',
            None => forall|j: int| start <= j < end ==> text@[j] != ':',
        },
    ensures
        (opt_view(final(b).id), opt_view(final(b).event), opt_view(final(b).data)) == apply_line(
            (opt_view(old(b).id), opt_view(old(b).event), opt_view(old(b).data)),
            text@.subrange(start as int, end as int),
        ),
{
    let ghost line = text@.subrange(start as int, end as int);
    proof {
        reveal(apply_line);
    }
    match colon {
        Some(p) => {
            proof {
                lemma_first_index(line, ':', p - start);
                assert(line.take(p - start) == chars@.subrange(start as int, p as int));
                assert(line.skip(p - start + 1) == text@.subrange(p + 1, end as int));
            }
            if p + 1 < end {
                let value = text.substring_char(p + 1, end);
                if key_matches(chars, start, p, key_id) {
                    b.set_id(value);
                } else if key_matches(chars, start, p, key_event) {
                    b.set_event(value);
                } else if key_matches(chars, start, p, key_data) {
                    b.set_data(value);
                }
            }
        },
        None => {
            proof {
                lemma_first_index_none(line, ':');
            }
        },
    }
}

fn parse_event<'a>(text: &'a str) -> (r: EventBuilder<'a>)
    ensures
        (opt_view(r.id), opt_view(r.event), opt_view(r.data)) == parsed_fields(text@),
{
    let n = text.unicode_len();
    let mut chars: Vec<char> = Vec::new();
    let mut k: usize = 0;
    while k < n
        invariant
            n == text@.len(),
            k <= n,
            chars@ == text@.take(k as int),
        decreases n - k,
    {
        chars.push(text.get_char(k));
        assert(text@.take(k as int + 1) == text@.take(k as int).push(text@[k as int]));
        k = k + 1;
    }
    assert(chars@ == text@);
    let key_id: Vec<char> = vec!['i', 'd'];
    let key_event: Vec<char> = vec!['e', 'v', 'e', 'n', 't'];
    let key_data: Vec<char> = vec!['d', 'a', 't', 'a'];
    assert(key_id@ == seq!['i', 'd']);
    assert(key_event@ == seq!['e', 'v', 'e', 'n', 't']);
    assert(key_data@ == seq!['d', 'a', 't', 'a']);
    let mut b = EventBuilder::new();
    let mut start: usize = 0;
    let mut i: usize = 0;
    let mut colon: Option<usize> = None;
    while i < n
        invariant
            n == text@.len(),
            chars@ == text@,
            key_id@ == seq!['i', 'd'],
            key_event@ == seq!['e', 'v', 'e', 'n', 't'],
            key_data@ == seq!['d', 'a', 't', 'a'],
            start <= i <= n,
            forall|j: int| start <= j < i ==> text@[j] != '\n',
            match colon {
                Some(p) => start <= p < i && text@[p as int] == ':' && forall|j: int| start <= j < p ==> text@[j] != ':',
                None => forall|j: int| start <= j < i ==> text@[j] != ':',
            },
            parsed_fields(text@) == fields_from(text@.skip(start as int), (opt_view(b.id), opt_view(b.event), opt_view(b.data))),
        decreases n - i,
    {
        if chars[i] == '\n' {
            let ghost f = (opt_view(b.id), opt_view(b.event), opt_view(b.data));
            proof {
                lemma_fields_step(text@, start as int, i as int, f);
            }
            read_line(&mut b, text, &chars, &key_id, &key_event, &key_data, start, colon, i);
            start = i + 1;
            colon = None;
        } else if chars[i] == ':' && colon.is_none() {
            colon = Some(i);
        }
        i = i + 1;
    }
    proof {
        lemma_fields_last(text@, start as int, (opt_view(b.id), opt_view(b.event), opt_view(b.data)));
    }
    read_line(&mut b, text, &chars, &key_id, &key_event, &key_data, start, colon, n);
    b
}

} // verus!
