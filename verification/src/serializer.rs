//! Building scene documents: the pieces of a game-object or component
//! document, and the YAML text of a component document.

use vstd::prelude::*;
use yaml_rust2::{parser::Parser, Event};

verus! {

/// A universally unique identifier (the `uuid` crate's `Uuid`), carried
/// through as an opaque value.
#[verifier::external_type_specification]
#[verifier::external_body]
pub struct ExUuid(uuid::Uuid);

/// Turns a scene file back into values.
pub trait Deserializer {
    /// Reads the scene named `read_path`; by default there is nothing to read.
    fn deserialize(&mut self, read_path: &'static str) {
    }
}

/// A value that can be read back from a scene file.
pub trait DeSerialize {

}

/// The kind of a scene document.
#[derive(Clone, Copy, PartialEq, Eq, Structural)]
pub enum DocumentType {
    GameObject,
    Component,
}

impl Default for DocumentType {
    fn default() -> (r: Self)
        ensures
            r == DocumentType::GameObject,
    {
        DocumentType::GameObject
    }
}

/// A document under construction. A game-object document lists its
/// components; a component document lists its data fields, with values
/// of type `N`.
pub struct DocumentBuilder<N> {
    doc_type: DocumentType,
    type_id: Option<u64>,
    local_file_id: Option<uuid::Uuid>,
    f_name: Option<String>,
    components: Option<Vec<uuid::Uuid>>,
    data_fields: Option<Vec<(String, N)>>,
}

impl<N> DocumentBuilder<N> {
    /// The kind of the document.
    pub closed spec fn spec_doc_type(self) -> DocumentType {
        self.doc_type
    }

    /// The type identifier, if set.
    pub closed spec fn spec_type_id(self) -> Option<u64> {
        self.type_id
    }

    /// The local file identifier, if set.
    pub closed spec fn spec_local_file_id(self) -> Option<uuid::Uuid> {
        self.local_file_id
    }

    /// The name, if set.
    pub closed spec fn spec_f_name(self) -> Option<Seq<char>> {
        match self.f_name {
            Some(n) => Some(n@),
            None => None,
        }
    }

    /// The components listed, if any was pushed.
    pub closed spec fn spec_components(self) -> Option<Seq<uuid::Uuid>> {
        match self.components {
            Some(c) => Some(c@),
            None => None,
        }
    }

    /// The data fields listed, if any was pushed.
    pub closed spec fn spec_data_fields(self) -> Option<Seq<(String, N)>> {
        match self.data_fields {
            Some(d) => Some(d@),
            None => None,
        }
    }

    /// An empty document of kind `doc_type`.
    pub fn new(doc_type: DocumentType) -> (r: Self)
        ensures
            r.spec_doc_type() == doc_type,
            r.spec_type_id() is None,
            r.spec_local_file_id() is None,
            r.spec_f_name() is None,
            r.spec_components() is None,
            r.spec_data_fields() is None,
    {
        DocumentBuilder {
            doc_type,
            type_id: None,
            local_file_id: None,
            f_name: None,
            components: None,
            data_fields: None,
        }
    }

    /// Sets the type identifier.
    pub fn set_type_id(&mut self, type_id: u64)
        ensures
            final(self).spec_type_id() == Some(type_id),
            final(self).spec_doc_type() == old(self).spec_doc_type(),
            final(self).spec_local_file_id() == old(self).spec_local_file_id(),
            final(self).spec_f_name() == old(self).spec_f_name(),
            final(self).spec_components() == old(self).spec_components(),
            final(self).spec_data_fields() == old(self).spec_data_fields(),
    {
        self.type_id = Some(type_id)
    }

    /// Sets the local file identifier.
    pub fn set_local_file_id(&mut self, local_id: uuid::Uuid)
        ensures
            final(self).spec_local_file_id() == Some(local_id),
            final(self).spec_doc_type() == old(self).spec_doc_type(),
            final(self).spec_type_id() == old(self).spec_type_id(),
            final(self).spec_f_name() == old(self).spec_f_name(),
            final(self).spec_components() == old(self).spec_components(),
            final(self).spec_data_fields() == old(self).spec_data_fields(),
    {
        self.local_file_id = Some(local_id);
    }

    /// Sets the name.
    pub fn set_f_name(&mut self, f_name: String)
        ensures
            final(self).spec_f_name() == Some(f_name@),
            final(self).spec_doc_type() == old(self).spec_doc_type(),
            final(self).spec_type_id() == old(self).spec_type_id(),
            final(self).spec_local_file_id() == old(self).spec_local_file_id(),
            final(self).spec_components() == old(self).spec_components(),
            final(self).spec_data_fields() == old(self).spec_data_fields(),
    {
        self.f_name = Some(f_name)
    }

    /// Appends a component reference; only a game-object document lists
    /// components.
    pub fn push_component(&mut self, comp_id: uuid::Uuid)
        requires
            old(self).spec_doc_type() != DocumentType::Component,
        ensures
            final(self).spec_components() == Some(
                match old(self).spec_components() {
                    Some(c) => c,
                    None => Seq::<uuid::Uuid>::empty(),
                }.push(comp_id),
            ),
            final(self).spec_doc_type() == old(self).spec_doc_type(),
            final(self).spec_type_id() == old(self).spec_type_id(),
            final(self).spec_local_file_id() == old(self).spec_local_file_id(),
            final(self).spec_f_name() == old(self).spec_f_name(),
            final(self).spec_data_fields() == old(self).spec_data_fields(),
    {
        let mut list = match self.components.take() {
            Some(c) => c,
            None => Vec::new(),
        };
        list.push(comp_id);
        self.components = Some(list);
    }

    /// Appends a data field; only a component document lists data fields.
    pub fn push_data_field(&mut self, data_field: (String, N))
        requires
            old(self).spec_doc_type() != DocumentType::GameObject,
        ensures
            final(self).spec_data_fields() == Some(
                match old(self).spec_data_fields() {
                    Some(d) => d,
                    None => Seq::<(String, N)>::empty(),
                }.push(data_field),
            ),
            final(self).spec_doc_type() == old(self).spec_doc_type(),
            final(self).spec_type_id() == old(self).spec_type_id(),
            final(self).spec_local_file_id() == old(self).spec_local_file_id(),
            final(self).spec_f_name() == old(self).spec_f_name(),
            final(self).spec_components() == old(self).spec_components(),
    {
        let mut list = match self.data_fields.take() {
            Some(d) => d,
            None => Vec::new(),
        };
        list.push(data_field);
        self.data_fields = Some(list);
    }

    /// The kind of the document.
    pub fn doc_type(&self) -> (r: DocumentType)
        ensures
            r == self.spec_doc_type(),
    {
        self.doc_type
    }

    /// The type identifier, if set.
    pub fn type_id(&self) -> (r: Option<u64>)
        ensures
            r == self.spec_type_id(),
    {
        self.type_id
    }

    /// The local file identifier, if set.
    pub fn local_file_id(&self) -> (r: Option<&uuid::Uuid>)
        ensures
            match r {
                Some(u) => self.spec_local_file_id() == Some(*u),
                None => self.spec_local_file_id() is None,
            },
    {
        match &self.local_file_id {
            Some(u) => Some(u),
            None => None,
        }
    }

    /// The name, if set.
    pub fn f_name(&self) -> (r: Option<&String>)
        ensures
            match r {
                Some(n) => self.spec_f_name() == Some(n@),
                None => self.spec_f_name() is None,
            },
    {
        match &self.f_name {
            Some(n) => Some(n),
            None => None,
        }
    }

    /// The components listed, if any was pushed.
    pub fn components(&self) -> (r: Option<&Vec<uuid::Uuid>>)
        ensures
            match r {
                Some(c) => self.spec_components() == Some(c@),
                None => self.spec_components() is None,
            },
    {
        match &self.components {
            Some(c) => Some(c),
            None => None,
        }
    }

    /// The data fields listed, if any was pushed.
    pub fn data_fields(&self) -> (r: Option<&Vec<(String, N)>>)
        ensures
            match r {
                Some(d) => self.spec_data_fields() == Some(d@),
                None => self.spec_data_fields() is None,
            },
    {
        match &self.data_fields {
            Some(d) => Some(d),
            None => None,
        }
    }
}


/// The character of the decimal digit `d`.
pub open spec fn digit_char(d: int) -> char {
    (48 + d) as char
}

/// The decimal text of `n`, without leading zeros.
pub open spec fn decimal(n: nat) -> Seq<char>
    decreases n,
{
    if n < 10 {
        seq![digit_char(n as int)]
    } else {
        decimal(n / 10) + seq![digit_char((n % 10) as int)]
    }
}

/// The decimal text of `v`, with a minus sign when it is negative.
pub open spec fn signed_decimal(v: int) -> Seq<char> {
    if v < 0 {
        seq!['-'] + decimal((-v) as nat)
    } else {
        decimal(v as nat)
    }
}

/// The text of the digit `d`.
fn digit_str(d: u64) -> (s: &'static str)
    requires
        d < 10,
    ensures
        s@ == seq![digit_char(d as int)],
{
    if d == 0 {
        proof { reveal_strlit("0"); }
        "0"
    } else if d == 1 {
        proof { reveal_strlit("1"); }
        "1"
    } else if d == 2 {
        proof { reveal_strlit("2"); }
        "2"
    } else if d == 3 {
        proof { reveal_strlit("3"); }
        "3"
    } else if d == 4 {
        proof { reveal_strlit("4"); }
        "4"
    } else if d == 5 {
        proof { reveal_strlit("5"); }
        "5"
    } else if d == 6 {
        proof { reveal_strlit("6"); }
        "6"
    } else if d == 7 {
        proof { reveal_strlit("7"); }
        "7"
    } else if d == 8 {
        proof { reveal_strlit("8"); }
        "8"
    } else {
        proof { reveal_strlit("9"); }
        "9"
    }
}

/// Appends the decimal text of `n` to `out`.
fn write_decimal(out: &mut String, n: u64)
    ensures
        final(out)@ == old(out)@ + decimal(n as nat),
    decreases n,
{
    if n >= 10 {
        write_decimal(out, n / 10);
    }
    out.append(digit_str(n % 10));
    assert(final(out)@ =~= old(out)@ + decimal(n as nat));
}

/// The decimal text of `v`, as `i64::to_string` writes it.
pub fn integer_text(v: i64) -> (s: String)
    ensures
        s@ == signed_decimal(v as int),
{
    let mut out = String::new();
    if v < 0 {
        out.append("-");
        proof { reveal_strlit("-"); }
        let magnitude: u64 = ((-(v + 1)) as u64) + 1;
        write_decimal(&mut out, magnitude);
    } else {
        write_decimal(&mut out, v as u64);
    }
    out
}

/// The line of a data field: its name and value, indented under the
/// `data:` key.
pub open spec fn field_line(name: Seq<char>, value: Seq<char>) -> Seq<char> {
    "        "@ + name + ": "@ + value + "\n"@
}

/// The data lines of a component document, one per field.
pub open spec fn field_lines(fields: Seq<(Seq<char>, Seq<char>)>) -> Seq<char>
    decreases fields.len(),
{
    if fields.len() == 0 {
        Seq::empty()
    } else {
        field_lines(fields.drop_last()) + field_line(fields.last().0, fields.last().1)
    }
}

/// The data lines of fields written one after the other are the lines of
/// the first fields followed by the lines of the rest: every field gets its
/// line, in order, and none is dropped.
pub proof fn law_field_lines_concat(a: Seq<(Seq<char>, Seq<char>)>, b: Seq<(Seq<char>, Seq<char>)>)
    ensures
        field_lines(a + b) == field_lines(a) + field_lines(b),
    decreases b.len(),
{
    if b.len() == 0 {
        assert(a + b =~= a);
        assert(field_lines(a) + field_lines(b) =~= field_lines(a));
    } else {
        assert((a + b).drop_last() =~= a + b.drop_last());
        assert((a + b).last() == b.last());
        law_field_lines_concat(a, b.drop_last());
        assert(field_lines(a + b) =~= field_lines(a) + field_lines(b));
    }
}

/// The data line of one field is its name and value indented under the
/// `data:` key, ended by a newline; no fields give no lines.
pub proof fn law_field_lines_one(f: (Seq<char>, Seq<char>))
    ensures
        field_lines(seq![f]) == "        "@ + f.0 + ": "@ + f.1 + "\n"@,
        field_lines(Seq::<(Seq<char>, Seq<char>)>::empty()) == Seq::<char>::empty(),
{
    assert(seq![f].drop_last() =~= Seq::<(Seq<char>, Seq<char>)>::empty());
    assert(seq![f].last() == f);
    assert(field_lines(Seq::<(Seq<char>, Seq<char>)>::empty()) == Seq::<char>::empty());
    assert(field_lines(seq![f]) == field_lines(Seq::<(Seq<char>, Seq<char>)>::empty()) + field_line(f.0, f.1));
    assert(field_lines(seq![f]) =~= "        "@ + f.0 + ": "@ + f.1 + "\n"@);
}

/// The start of a component document with the type identifier `type_id`
/// and the name `name`, up to its `data:` key.
pub open spec fn component_header(type_id: u64, name: Seq<char>) -> Seq<char> {
    "\n---Component: &"@ + decimal(type_id as nat) + "\n    id: 1\n    type: "@ + name + "\n    data:"@
}

/// The YAML text of a component document with the type identifier
/// `type_id`, the name `name` and the rendered data fields `fields`.
pub open spec fn component_document(type_id: u64, name: Seq<char>, fields: Seq<(Seq<char>, Seq<char>)>) -> Seq<char> {
    component_header(type_id, name) + field_lines(fields) + "..."@
}

/// Writes scene documents as YAML text; `N` is the type of the document
/// trees it keeps.
pub struct YamlSerializer<N> {
    ast_roots: Vec<N>,
    output_buffer: String,
}

impl<N> YamlSerializer<N> {
    /// The text written so far.
    pub closed spec fn output(self) -> Seq<char> {
        self.output_buffer@
    }

    /// A serializer that has written nothing.
    pub fn new() -> (r: Self)
        ensures
            r.output() == Seq::<char>::empty(),
    {
        YamlSerializer { ast_roots: Vec::new(), output_buffer: String::new() }
    }

    /// The text written so far.
    pub fn output_buffer(&self) -> (r: &String)
        ensures
            r@ == self.output(),
    {
        &self.output_buffer
    }

    /// Appends the start of a component document with the type identifier
    /// `type_id` and the name `f_name`, up to its `data:` key.
    pub fn begin_component(&mut self, type_id: u64, f_name: &String)
        ensures
            final(self).output() == old(self).output() + component_header(type_id, f_name@),
    {
        let ghost start = self.output_buffer@;
        self.output_buffer.append("\n---Component: &");
        write_decimal(&mut self.output_buffer, type_id);
        self.output_buffer.append("\n    id: 1\n    type: ");
        self.output_buffer.append(f_name.as_str());
        self.output_buffer.append("\n    data:");
        assert(self.output_buffer@ =~= start + component_header(type_id, f_name@));
    }

    /// Appends the line of the data field `name` with the rendered value
    /// `value`.
    pub fn push_field(&mut self, name: &String, value: &String)
        ensures
            final(self).output() == old(self).output() + field_line(name@, value@),
    {
        let ghost start = self.output_buffer@;
        self.output_buffer.append("        ");
        self.output_buffer.append(name.as_str());
        self.output_buffer.append(": ");
        self.output_buffer.append(value.as_str());
        self.output_buffer.append("\n");
        assert(self.output_buffer@ =~= start + field_line(name@, value@));
    }

    /// Appends the end of a component document.
    pub fn end_component(&mut self)
        ensures
            final(self).output() == old(self).output() + "..."@,
    {
        self.output_buffer.append("...");
    }

    /// Appends the component document with the type identifier `type_id`,
    /// the name `f_name` and the data fields `fields`, each a name and its
    /// rendered value.
    pub fn serialize_component(&mut self, type_id: u64, f_name: &String, fields: &Vec<(String, String)>)
        ensures
            final(self).output() == old(self).output() + component_document(
                type_id,
                f_name@,
                fields@.map_values(|f: (String, String)| (f.0@, f.1@)),
            ),
    {
        let ghost start = self.output_buffer@;
        self.begin_component(type_id, f_name);
        let ghost header = self.output_buffer@;
        let ghost rendered = fields@.map_values(|f: (String, String)| (f.0@, f.1@));
        let mut i: usize = 0;
        while i < fields.len()
            invariant
                i <= fields@.len(),
                rendered == fields@.map_values(|f: (String, String)| (f.0@, f.1@)),
                self.output_buffer@ == header + field_lines(rendered.take(i as int)),
            decreases fields.len() - i,
        {
            self.push_field(&fields[i].0, &fields[i].1);
            proof {
                assert(rendered.take(i + 1).drop_last() =~= rendered.take(i as int));
                assert(self.output_buffer@ =~= header + field_lines(rendered.take(i + 1)));
            }
            i = i + 1;
        }
        self.end_component();
        proof {
            assert(rendered.take(fields@.len() as int) =~= rendered);
            assert(self.output_buffer@ =~= start + component_document(type_id, f_name@, rendered));
        }
    }
}


/// What the scene reader sees in a YAML stream.
pub enum YamlEvent {
    /// The end of the stream.
    StreamEnd,
    /// The start of a document.
    DocumentStart,
    /// A scalar value.
    Scalar(String),
    /// The start of a mapping, with the suffix of its tag if it has one.
    MappingStart(Option<String>),
    /// Anything else.
    Other,
}

/// A YAML event as plain values.
pub enum SceneEvent {
    StreamEnd,
    DocumentStart,
    Scalar(Seq<char>),
    MappingStart(Option<Seq<char>>),
    Other,
}

impl View for YamlEvent {
    type V = SceneEvent;

    open spec fn view(&self) -> SceneEvent {
        match self {
            YamlEvent::StreamEnd => SceneEvent::StreamEnd,
            YamlEvent::DocumentStart => SceneEvent::DocumentStart,
            YamlEvent::Scalar(name) => SceneEvent::Scalar(name@),
            YamlEvent::MappingStart(tag) => SceneEvent::MappingStart(
                match tag {
                    Some(t) => Some(t@),
                    None => None,
                },
            ),
            YamlEvent::Other => SceneEvent::Other,
        }
    }
}

/// The events that yaml-rust2's parser gives for the text `text`, in
/// order, up to and including the end of the stream, or up to its first
/// error.
pub uninterp spec fn yaml_scene_events(text: Seq<char>) -> Seq<SceneEvent>;

/// Parses `text` with yaml-rust2: `Parser::new` on its characters, then
/// `next_token` until it gives the end of the stream (after which it would
/// give that event again forever) or an error. The contract claims that the
/// events, each taken as plain values, are `yaml_scene_events(text)`: the
/// parser's events depend on the text alone. That the parser stops on
/// every text is not stated; its source consumes a character or ends at
/// each step.
#[verifier::external_body]
fn parse_yaml_events(text: &str) -> (r: Vec<YamlEvent>)
    ensures
        scene_events_of(r@) == yaml_scene_events(text@),
{
    let mut parser = Parser::new(text.chars());
    let mut events = Vec::new();
    while let Ok((event, _)) = parser.next_token() {
        let end = event == Event::StreamEnd;
        events.push(match event {
            Event::StreamEnd => YamlEvent::StreamEnd,
            Event::DocumentStart => YamlEvent::DocumentStart,
            Event::Scalar(name, _, _, _) => YamlEvent::Scalar(name),
            Event::MappingStart(_, tag) => YamlEvent::MappingStart(tag.map(|t| t.suffix)),
            _ => YamlEvent::Other,
        });
        if end { break; }
    }
    events
}

/// What the scene reader does on an event.
pub enum ReadStep {
    /// The stream ended before the scene was complete: stop.
    EndOfStream,
    /// Report the lines and go on.
    Report(Vec<String>),
}

/// Why reading a scene failed.
pub enum SceneError {
    /// The stream ended before the scene was complete; the lines reported
    /// before the end.
    EndOfStream(Vec<String>),
}

/// The events `events` as plain values.
pub open spec fn scene_events_of(events: Seq<YamlEvent>) -> Seq<SceneEvent> {
    events.map_values(|e: YamlEvent| e@)
}

/// The lines the scene reader reports on `event`; `None` when it stops.
pub open spec fn read_report(event: SceneEvent) -> Option<Seq<Seq<char>>> {
    match event {
        SceneEvent::StreamEnd => None,
        SceneEvent::DocumentStart => Some(seq!["Found doc start"@]),
        SceneEvent::Scalar(name) => Some(seq![name]),
        SceneEvent::MappingStart(tag) => match tag {
            Some(t) => Some(
                seq!["Found object mapping"@, "found tag: "@ + t, "Found data mapping"@],
            ),
            None => Some(seq!["Found data mapping"@]),
        },
        SceneEvent::Other => Some(Seq::empty()),
    }
}

/// Whether a component is being read after `event`, given whether one was
/// being read before.
pub open spec fn reading_after(reading: bool, event: SceneEvent) -> bool {
    match event {
        SceneEvent::DocumentStart => false,
        SceneEvent::MappingStart(tag) => reading || tag is Some,
        _ => reading,
    }
}

/// The lines the scene reader reports on `events`, in order, up to the
/// first end of stream, and whether it met one.
pub open spec fn read_scene(events: Seq<SceneEvent>) -> (Seq<Seq<char>>, bool)
    decreases events.len(),
{
    if events.len() == 0 {
        (Seq::empty(), false)
    } else {
        let before = read_scene(events.drop_last());
        if before.1 {
            before
        } else {
            match read_report(events.last()) {
                None => (before.0, true),
                Some(more) => (before.0 + more, false),
            }
        }
    }
}

/// Whether `events` holds an end of stream.
pub open spec fn has_stream_end(events: Seq<SceneEvent>) -> bool {
    exists|i: int| 0 <= i < events.len() && #[trigger] events[i] is StreamEnd
}

/// Only an end of stream ends reading: the reader reports that it met the
/// end exactly when the events hold one.
pub proof fn law_read_scene_ends_only_at_stream_end(events: Seq<SceneEvent>)
    ensures
        read_scene(events).1 == has_stream_end(events),
    decreases events.len(),
{
    if events.len() > 0 {
        let rest = events.drop_last();
        law_read_scene_ends_only_at_stream_end(rest);
        if has_stream_end(rest) {
            let i = choose|i: int| 0 <= i < rest.len() && #[trigger] rest[i] is StreamEnd;
            assert(events[i] is StreamEnd);
        }
        if has_stream_end(events) {
            let i = choose|i: int| 0 <= i < events.len() && #[trigger] events[i] is StreamEnd;
            if i < rest.len() {
                assert(rest[i] is StreamEnd);
            }
        }
    }
}

/// Reading events one run after another: when the first run holds no end
/// of stream, the lines are those of the first run followed by those of the
/// second, and the reader ends exactly when it ends on the second.
pub proof fn law_read_scene_concat(a: Seq<SceneEvent>, b: Seq<SceneEvent>)
    requires
        !has_stream_end(a),
    ensures
        read_scene(a + b) == (read_scene(a).0 + read_scene(b).0, read_scene(b).1),
    decreases b.len(),
{
    law_read_scene_ends_only_at_stream_end(a);
    if b.len() == 0 {
        assert(a + b =~= a);
        assert(read_scene(a).0 + read_scene(b).0 =~= read_scene(a).0);
    } else {
        assert((a + b).drop_last() =~= a + b.drop_last());
        assert((a + b).last() == b.last());
        law_read_scene_concat(a, b.drop_last());
        let before = read_scene(b.drop_last());
        match read_report(b.last()) {
            Some(more) => {
                assert(read_scene(a).0 + before.0 + more =~= read_scene(a).0 + (before.0 + more));
            },
            None => {},
        }
    }
}

/// What reading one event reports: a document start reports that it was
/// found and reading goes on, a scalar its value, a mapping start its tag
/// (when it has one) and that it was found, any other event nothing; only
/// the end of the stream ends reading, reporting nothing.
pub proof fn law_read_scene_one(e: SceneEvent)
    ensures
        read_scene(seq![e]) == match e {
            SceneEvent::StreamEnd => (Seq::<Seq<char>>::empty(), true),
            SceneEvent::DocumentStart => (seq!["Found doc start"@], false),
            SceneEvent::Scalar(name) => (seq![name], false),
            SceneEvent::MappingStart(Some(t)) => (
                seq!["Found object mapping"@, "found tag: "@ + t, "Found data mapping"@],
                false,
            ),
            SceneEvent::MappingStart(None) => (seq!["Found data mapping"@], false),
            SceneEvent::Other => (Seq::<Seq<char>>::empty(), false),
        },
{
    assert(seq![e].drop_last() =~= Seq::<SceneEvent>::empty());
    assert(seq![e].last() == e);
    assert(read_scene(Seq::<SceneEvent>::empty()) == (Seq::<Seq<char>>::empty(), false));
    let r = read_scene(seq![e]);
    match e {
        SceneEvent::StreamEnd => {},
        SceneEvent::DocumentStart => {
            assert(r.0 =~= seq!["Found doc start"@]);
        },
        SceneEvent::Scalar(name) => {
            assert(r.0 =~= seq![name]);
        },
        SceneEvent::MappingStart(tag) => match tag {
            Some(t) => {
                assert(r.0 =~= seq!["Found object mapping"@, "found tag: "@ + t, "Found data mapping"@]);
            },
            None => {
                assert(r.0 =~= seq!["Found data mapping"@]);
            },
        },
        SceneEvent::Other => {
            assert(r.0 =~= Seq::<Seq<char>>::empty());
        },
    }
}

/// Once the reader has met the end of the stream, later events change
/// nothing.
proof fn lemma_read_scene_ended(events: Seq<SceneEvent>, n: int)
    requires
        0 <= n <= events.len(),
        read_scene(events.take(n)).1,
    ensures
        read_scene(events) == read_scene(events.take(n)),
    decreases events.len(),
{
    if n < events.len() {
        assert(events.drop_last().take(n) =~= events.take(n));
        lemma_read_scene_ended(events.drop_last(), n);
    } else {
        assert(events.take(n) =~= events);
    }
}

/// One step of reading a scene: what to report on `event`, and whether a
/// component is being read afterwards.
pub fn read_scene_event(reading: bool, event: YamlEvent) -> (r: (bool, ReadStep))
    ensures
        r.0 == reading_after(reading, event@),
        match r.1 {
            ReadStep::EndOfStream => read_report(event@) is None,
            ReadStep::Report(lines) => read_report(event@) == Some(
                lines@.map_values(|l: String| l@),
            ),
        },
{
    let ghost ev = event@;
    match event {
        YamlEvent::StreamEnd => (reading, ReadStep::EndOfStream),
        YamlEvent::DocumentStart => {
            let mut lines: Vec<String> = Vec::new();
            lines.push(String::from_str("Found doc start"));
            assert(lines@.map_values(|l: String| l@) =~= seq!["Found doc start"@]);
            (false, ReadStep::Report(lines))
        },
        YamlEvent::Scalar(name) => {
            let mut lines: Vec<String> = Vec::new();
            lines.push(name);
            assert(lines@.map_values(|l: String| l@) =~= read_report(ev)->0);
            (reading, ReadStep::Report(lines))
        },
        YamlEvent::MappingStart(tag) => {
            let mut lines: Vec<String> = Vec::new();
            let now_reading = match tag {
                Some(t) => {
                    lines.push(String::from_str("Found object mapping"));
                    let mut line = String::from_str("found tag: ");
                    line.append(t.as_str());
                    lines.push(line);
                    true
                },
                None => reading,
            };
            lines.push(String::from_str("Found data mapping"));
            assert(lines@.map_values(|l: String| l@) =~= read_report(ev)->0);
            (now_reading, ReadStep::Report(lines))
        },
        YamlEvent::Other => {
            let lines: Vec<String> = Vec::new();
            assert(lines@.map_values(|l: String| l@) =~= Seq::<Seq<char>>::empty());
            (reading, ReadStep::Report(lines))
        },
    }
}

/// Reads a scene from its events: the lines reported on each event in
/// turn; the end of the stream is an error, which carries the lines
/// reported before it.
pub fn read_scene_events(events: Vec<YamlEvent>) -> (r: Result<Vec<String>, SceneError>)
    ensures
        r is Err == has_stream_end(scene_events_of(events@)),
        match r {
            Ok(lines) => !read_scene(scene_events_of(events@)).1
                && lines@.map_values(|l: String| l@) == read_scene(scene_events_of(events@)).0,
            Err(SceneError::EndOfStream(lines)) => read_scene(scene_events_of(events@)).1
                && lines@.map_values(|l: String| l@) == read_scene(scene_events_of(events@)).0,
        },
{
    let ghost all = scene_events_of(events@);
    proof {
        law_read_scene_ends_only_at_stream_end(all);
    }
    let mut rest = events;
    let mut lines: Vec<String> = Vec::new();
    let mut reading = false;
    let ghost mut k: int = 0;
    while rest.len() > 0
        invariant
            all == scene_events_of(events@),
            0 <= k <= all.len(),
            all.len() == k + rest@.len(),
            scene_events_of(rest@) == all.skip(k),
            !read_scene(all.take(k)).1,
            lines@.map_values(|l: String| l@) == read_scene(all.take(k)).0,
        decreases rest.len(),
    {
        let ghost rest_before = rest@;
        let event = rest.remove(0);
        proof {
            assert(event@ == scene_events_of(rest_before)[0]);
            assert(event@ == all[k]);
            assert(rest@ =~= rest_before.subrange(1, rest_before.len() as int));
            let rv = scene_events_of(rest@);
            assert forall|i: int| 0 <= i < rest@.len() implies #[trigger] rv[i] == all.skip(k + 1)[i] by {
                assert(rest@[i] == rest_before[i + 1]);
                assert(scene_events_of(rest_before)[i + 1] == all.skip(k)[i + 1]);
            }
            assert(rv =~= all.skip(k + 1));
            assert(all.take(k + 1).drop_last() =~= all.take(k));
            assert(all.take(k + 1).last() == all[k]);
        }
        let (now_reading, step) = read_scene_event(reading, event);
        reading = now_reading;
        match step {
            ReadStep::EndOfStream => {
                proof {
                    assert(read_report(all[k]) is None);
                    assert(read_scene(all.take(k + 1)) == (read_scene(all.take(k)).0, true));
                    lemma_read_scene_ended(all, k + 1);
                    assert(read_scene(all) == (read_scene(all.take(k)).0, true));
                }
                return Err(SceneError::EndOfStream(lines));
            },
            ReadStep::Report(more) => {
                let ghost before = lines@;
                let mut more = more;
                lines.append(&mut more);
                proof {
                    assert(lines@.map_values(|l: String| l@) =~= before.map_values(|l: String| l@)
                        + read_report(all[k])->0);
                }
            },
        }
        proof {
            k = k + 1;
        }
    }
    proof {
        assert(all.take(k) =~= all);
    }
    Ok(lines)
}

/// Reads the scene written in the YAML text `text`: the lines reported on
/// each of the parser's events in turn; the end of the stream is an error,
/// which carries the lines reported before it.
pub fn read_scene_text(text: &str) -> (r: Result<Vec<String>, SceneError>)
    ensures
        r is Err == has_stream_end(yaml_scene_events(text@)),
        match r {
            Ok(lines) => !read_scene(yaml_scene_events(text@)).1
                && lines@.map_values(|l: String| l@) == read_scene(yaml_scene_events(text@)).0,
            Err(SceneError::EndOfStream(lines)) => read_scene(yaml_scene_events(text@)).1
                && lines@.map_values(|l: String| l@) == read_scene(yaml_scene_events(text@)).0,
        },
{
    let events = parse_yaml_events(text);
    read_scene_events(events)
}

} // verus!
