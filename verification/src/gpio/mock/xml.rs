//! XML documents as plain events, read and written through `quick_xml`.

use quick_xml::events::attributes::Attributes;
use quick_xml::events::BytesEnd;
use quick_xml::events::BytesStart;
use quick_xml::events::BytesText;
use quick_xml::events::Event;
use quick_xml::Reader;
use quick_xml::Writer;
use quick_xml::XmlVersion;
use vstd::prelude::*;

verus! {

/// The `quick_xml` reader over a text in memory.
#[verifier::external_type_specification]
#[verifier::external_body]
#[verifier::reject_recursive_types(R)]
pub struct ExReader<R>(quick_xml::Reader<R>);

/// The `quick_xml` writer.
#[verifier::external_type_specification]
#[verifier::external_body]
#[verifier::reject_recursive_types(W)]
pub struct ExWriter<W>(quick_xml::Writer<W>);

/// One attribute of a tag, as far as it could be read.
#[derive(Debug, Clone, PartialEq, Eq)]
pub enum XmlAttribute {
    /// An attribute with its unescaped value.
    Pair { key: String, value: String },
    /// An attribute whose value cannot be unescaped.
    BadValue { key: String, message: String },
    /// Text that is not an attribute.
    Malformed { message: String },
}

/// An [`XmlAttribute`] with its texts as character sequences.
pub ghost enum XmlAttributeModel {
    Pair { key: Seq<char>, value: Seq<char> },
    BadValue { key: Seq<char>, message: Seq<char> },
    Malformed { message: Seq<char> },
}

impl View for XmlAttribute {
    type V = XmlAttributeModel;

    open spec fn view(&self) -> XmlAttributeModel {
        match *self {
            XmlAttribute::Pair { key, value } => XmlAttributeModel::Pair {
                key: key@,
                value: value@,
            },
            XmlAttribute::BadValue { key, message } => XmlAttributeModel::BadValue {
                key: key@,
                message: message@,
            },
            XmlAttribute::Malformed { message } => XmlAttributeModel::Malformed {
                message: message@,
            },
        }
    }
}

/// The models of a list of attributes.
pub open spec fn attribute_models(attributes: Seq<XmlAttribute>) -> Seq<XmlAttributeModel> {
    Seq::new(attributes.len(), |i: int| attributes[i]@)
}

/// What the reader meets next, with the inside of a tag still as text.
#[derive(Debug, Clone, PartialEq, Eq)]
pub enum XmlToken {
    /// `<content>`; `name` is the part of `content` before the attributes.
    Start { name: String, content: String },
    /// `<content/>`.
    Empty { name: String, content: String },
    /// `</name>`.
    End { name: String },
    /// Text between tags.
    Text { text: String },
    /// A comment, a declaration, an entity reference and the like.
    Other,
    /// The end of the document.
    Eof,
    /// The document is not well-formed here.
    Malformed { message: String },
}

/// An [`XmlToken`] with its texts as character sequences.
pub ghost enum XmlTokenModel {
    Start { name: Seq<char>, content: Seq<char> },
    Empty { name: Seq<char>, content: Seq<char> },
    End { name: Seq<char> },
    Text { text: Seq<char> },
    Other,
    Eof,
    Malformed { message: Seq<char> },
}

impl View for XmlToken {
    type V = XmlTokenModel;

    open spec fn view(&self) -> XmlTokenModel {
        match *self {
            XmlToken::Start { name, content } => XmlTokenModel::Start {
                name: name@,
                content: content@,
            },
            XmlToken::Empty { name, content } => XmlTokenModel::Empty {
                name: name@,
                content: content@,
            },
            XmlToken::End { name } => XmlTokenModel::End { name: name@ },
            XmlToken::Text { text } => XmlTokenModel::Text { text: text@ },
            XmlToken::Other => XmlTokenModel::Other,
            XmlToken::Eof => XmlTokenModel::Eof,
            XmlToken::Malformed { message } => XmlTokenModel::Malformed { message: message@ },
        }
    }
}

impl XmlTokenModel {
    /// Whether reading ends with this token.
    pub open spec fn is_last(self) -> bool {
        self is Eof || self is Malformed
    }

    /// Whether the name of a tag is the start of what the tag holds.
    pub open spec fn named_first(self) -> bool {
        match self {
            XmlTokenModel::Start { name, content } => name.is_prefix_of(content),
            XmlTokenModel::Empty { name, content } => name.is_prefix_of(content),
            _ => true,
        }
    }
}

/// The tokens that `quick_xml::Reader` gives for a text, up to and with the first end of
/// document or error.
pub uninterp spec fn xml_tokens(content: Seq<char>) -> Seq<XmlTokenModel>;

/// The tokens that a reader has still to give, up to and with the first end of document or
/// error.
pub uninterp spec fn xml_unread(reader: quick_xml::Reader<&[u8]>) -> Seq<XmlTokenModel>;

/// The attributes that `quick_xml` finds in the content of a tag behind its name.
pub uninterp spec fn xml_attributes(content: Seq<char>, name: Seq<char>) -> Seq<
    XmlAttributeModel,
>;

/// `quick_xml::Reader::from_str`: a reader at the start of the text. Every text has at least
/// one token, its end.
#[verifier::external_body]
fn open_reader(content: &str) -> (reader: Reader<&[u8]>)
    ensures
        xml_unread(reader) == xml_tokens(content@),
        xml_unread(reader).len() > 0,
{
    Reader::from_str(content)
}

/// `quick_xml::Reader::read_event`: takes the next token off the reader. The end of the
/// document and an error are the last tokens; every other token is followed by one more. The
/// name of a tag is the start of its content.
#[verifier::external_body]
fn read_token(reader: &mut Reader<&[u8]>) -> (token: XmlToken)
    ensures
        token@.named_first(),
        xml_unread(*old(reader)).len() > 0 ==> {
            &&& token@ == xml_unread(*old(reader))[0]
            &&& xml_unread(*final(reader)) == xml_unread(*old(reader)).drop_first()
            &&& token@.is_last() <==> xml_unread(*final(reader)).len() == 0
        },
{
    let plain = |bytes: &[u8]| String::from_utf8_lossy(bytes).into_owned();
    match reader.read_event() {
        Ok(Event::Start(tag)) => XmlToken::Start { name: plain(tag.name().as_ref()), content: plain(&tag) },
        Ok(Event::Empty(tag)) => XmlToken::Empty { name: plain(tag.name().as_ref()), content: plain(&tag) },
        Ok(Event::End(tag)) => XmlToken::End { name: plain(tag.name().as_ref()) },
        Ok(Event::Text(text)) => XmlToken::Text { text: plain(&text) },
        Ok(Event::Eof) => XmlToken::Eof,
        Ok(_) => XmlToken::Other,
        Err(error) => XmlToken::Malformed { message: error.to_string() },
    }
}

/// `quick_xml::events::attributes::Attributes`, with the values unescaped and normalized as
/// XML 1.0 asks. The content must start with the name: the iterator fails on one that is
/// shorter.
#[verifier::external_body]
fn read_attributes(content: &str, name: &str) -> (attributes: Vec<XmlAttribute>)
    requires
        name@.is_prefix_of(content@),
    ensures
        attribute_models(attributes@) == xml_attributes(content@, name@),
{
    let found = Attributes::new(content, name.len());
    let decoder = found.decoder();
    found.map(|item| match item {
        Ok(pair) => {
            let key = String::from_utf8_lossy(pair.key.as_ref()).into_owned();
            match pair.decoded_and_normalized_value(XmlVersion::Explicit1_0, decoder) {
                Ok(value) => XmlAttribute::Pair { key, value: value.into_owned() },
                Err(error) => XmlAttribute::BadValue { key, message: error.to_string() },
            }
        },
        Err(error) => XmlAttribute::Malformed { message: quick_xml::Error::from(error).to_string() },
    }).collect()
}

// ---------------------------------------------------------------------------
// Reading
// ---------------------------------------------------------------------------

/// A token with the attributes of a tag taken apart.
#[derive(Debug, Clone, PartialEq, Eq)]
pub enum XmlEvent {
    Start { name: String, attributes: Vec<XmlAttribute> },
    Empty { name: String, attributes: Vec<XmlAttribute> },
    End { name: String },
    Text { text: String },
    Other,
    Eof,
    Malformed { message: String },
}

/// An [`XmlEvent`] with its texts as character sequences.
pub ghost enum XmlEventModel {
    Start { name: Seq<char>, attributes: Seq<XmlAttributeModel> },
    Empty { name: Seq<char>, attributes: Seq<XmlAttributeModel> },
    End { name: Seq<char> },
    Text { text: Seq<char> },
    Other,
    Eof,
    Malformed { message: Seq<char> },
}

impl View for XmlEvent {
    type V = XmlEventModel;

    open spec fn view(&self) -> XmlEventModel {
        match *self {
            XmlEvent::Start { name, attributes } => XmlEventModel::Start {
                name: name@,
                attributes: attribute_models(attributes@),
            },
            XmlEvent::Empty { name, attributes } => XmlEventModel::Empty {
                name: name@,
                attributes: attribute_models(attributes@),
            },
            XmlEvent::End { name } => XmlEventModel::End { name: name@ },
            XmlEvent::Text { text } => XmlEventModel::Text { text: text@ },
            XmlEvent::Other => XmlEventModel::Other,
            XmlEvent::Eof => XmlEventModel::Eof,
            XmlEvent::Malformed { message } => XmlEventModel::Malformed { message: message@ },
        }
    }
}

impl XmlEventModel {
    /// Whether reading ends with this event.
    pub open spec fn is_last(self) -> bool {
        self is Eof || self is Malformed
    }
}

/// A token with the attributes of a tag taken apart.
pub open spec fn token_event(token: XmlTokenModel) -> XmlEventModel {
    match token {
        XmlTokenModel::Start { name, content } => XmlEventModel::Start {
            name,
            attributes: xml_attributes(content, name),
        },
        XmlTokenModel::Empty { name, content } => XmlEventModel::Empty {
            name,
            attributes: xml_attributes(content, name),
        },
        XmlTokenModel::End { name } => XmlEventModel::End { name },
        XmlTokenModel::Text { text } => XmlEventModel::Text { text },
        XmlTokenModel::Other => XmlEventModel::Other,
        XmlTokenModel::Eof => XmlEventModel::Eof,
        XmlTokenModel::Malformed { message } => XmlEventModel::Malformed { message },
    }
}

/// The events of a list of tokens.
pub open spec fn token_events(tokens: Seq<XmlTokenModel>) -> Seq<XmlEventModel> {
    Seq::new(tokens.len(), |i: int| token_event(tokens[i]))
}

/// The events of a document, up to and with the first end of document or error.
pub open spec fn xml_events(content: Seq<char>) -> Seq<XmlEventModel> {
    token_events(xml_tokens(content))
}

/// A document that is read event by event.
pub struct XmlSource<'a> {
    reader: Reader<&'a [u8]>,
}

impl<'a> XmlSource<'a> {
    /// The events that are still to come.
    pub closed spec fn pending(&self) -> Seq<XmlEventModel> {
        token_events(xml_unread(self.reader))
    }

    /// A source at the start of a document.
    pub fn open(content: &'a str) -> (source: Self)
        ensures
            source.pending() == xml_events(content@),
            source.pending().len() > 0,
    {
        XmlSource { reader: open_reader(content) }
    }

    /// Takes the next event. Nothing follows the end of the document or an error; something
    /// follows every other event.
    pub fn next(&mut self) -> (event: XmlEvent)
        requires
            old(self).pending().len() > 0,
        ensures
            event@ == old(self).pending()[0],
            final(self).pending() == old(self).pending().drop_first(),
            event@.is_last() <==> final(self).pending().len() == 0,
    {
        let token = read_token(&mut self.reader);
        assert(self.pending() =~= old(self).pending().drop_first());
        match token {
            XmlToken::Start { name, content } => {
                let attributes = read_attributes(content.as_str(), name.as_str());
                XmlEvent::Start { name, attributes }
            },
            XmlToken::Empty { name, content } => {
                let attributes = read_attributes(content.as_str(), name.as_str());
                XmlEvent::Empty { name, attributes }
            },
            XmlToken::End { name } => XmlEvent::End { name },
            XmlToken::Text { text } => XmlEvent::Text { text },
            XmlToken::Other => XmlEvent::Other,
            XmlToken::Eof => XmlEvent::Eof,
            XmlToken::Malformed { message } => XmlEvent::Malformed { message },
        }
    }
}

// ---------------------------------------------------------------------------
// Writing
// ---------------------------------------------------------------------------

/// One piece of a document to write.
#[derive(Debug, Clone, PartialEq, Eq)]
pub enum XmlNode {
    /// An opening tag with its attributes.
    Start { name: String, attributes: Vec<(String, String)> },
    /// Text between tags.
    Text { text: String },
    /// A closing tag.
    End { name: String },
}

/// An [`XmlNode`] with its texts as character sequences.
pub ghost enum XmlNodeModel {
    Start { name: Seq<char>, attributes: Seq<(Seq<char>, Seq<char>)> },
    Text { text: Seq<char> },
    End { name: Seq<char> },
}

/// The texts of a list of attributes.
pub open spec fn pair_models(attributes: Seq<(String, String)>) -> Seq<(Seq<char>, Seq<char>)> {
    Seq::new(attributes.len(), |i: int| (attributes[i].0@, attributes[i].1@))
}

impl View for XmlNode {
    type V = XmlNodeModel;

    open spec fn view(&self) -> XmlNodeModel {
        match *self {
            XmlNode::Start { name, attributes } => XmlNodeModel::Start {
                name: name@,
                attributes: pair_models(attributes@),
            },
            XmlNode::Text { text } => XmlNodeModel::Text { text: text@ },
            XmlNode::End { name } => XmlNodeModel::End { name: name@ },
        }
    }
}

/// A tag or attribute name of ASCII letters and underscores.
pub open spec fn plain_name(name: Seq<char>) -> bool {
    &&& name.len() > 0
    &&& forall|i: int|
        0 <= i < name.len() ==> {
            let ch = #[trigger] name[i];
            ('a' <= ch && ch <= 'z') || ('A' <= ch && ch <= 'Z') || ch == '_'
        }
}

/// A text of ASCII letters and digits.
pub open spec fn plain_text(text: Seq<char>) -> bool {
    &&& text.len() > 0
    &&& forall|i: int|
        0 <= i < text.len() ==> {
            let ch = #[trigger] text[i];
            ('a' <= ch && ch <= 'z') || ('A' <= ch && ch <= 'Z') || ('0' <= ch && ch <= '9')
        }
}

/// An attribute value that reading does not change: no tab and no line break.
pub open spec fn plain_value(value: Seq<char>) -> bool {
    forall|i: int|
        0 <= i < value.len() ==> {
            let ch = #[trigger] value[i];
            ch != '\t' && ch != '\n' && ch != '\r'
        }
}

/// Attributes with plain, distinct names and plain values.
pub open spec fn plain_attributes(attributes: Seq<(Seq<char>, Seq<char>)>) -> bool {
    &&& forall|i: int|
        0 <= i < attributes.len() ==> plain_name((#[trigger] attributes[i]).0) && plain_value(
            attributes[i].1,
        )
    &&& forall|i: int, j: int|
        0 <= i < j < attributes.len() ==> (#[trigger] attributes[i]).0 != (
        #[trigger] attributes[j]).0
}

/// Nodes that make up a document: plain names, tags closed in order, no two texts in a row.
/// `open` holds the names of the tags that are open.
pub open spec fn plain_document(nodes: Seq<XmlNodeModel>, open: Seq<Seq<char>>) -> bool
    decreases nodes.len(),
{
    if nodes.len() == 0 {
        open.len() == 0
    } else {
        let rest = nodes.drop_first();
        match nodes[0] {
            XmlNodeModel::Start { name, attributes } => plain_name(name) && plain_attributes(
                attributes,
            ) && plain_document(rest, open.push(name)),
            XmlNodeModel::Text { text } => plain_text(text) && rest.len() > 0 && !(
            rest[0] is Text) && plain_document(rest, open),
            XmlNodeModel::End { name } => open.len() > 0 && open.last() == name && plain_document(
                rest,
                open.drop_last(),
            ),
        }
    }
}

/// The line break and indentation in front of a tag.
pub open spec fn indentation(depth: nat) -> Seq<char> {
    seq!['\n'] + Seq::new(4 * depth, |i: int| ' ')
}

/// The events of attributes that are read back as they were written.
pub open spec fn attribute_pairs(attributes: Seq<(Seq<char>, Seq<char>)>) -> Seq<
    XmlAttributeModel,
> {
    Seq::new(
        attributes.len(),
        |i: int| XmlAttributeModel::Pair { key: attributes[i].0, value: attributes[i].1 },
    )
}

/// The text in front of a tag, where a line break is due.
pub open spec fn break_before(depth: nat, line_break: bool) -> Seq<XmlEventModel> {
    if line_break {
        seq![XmlEventModel::Text { text: indentation(depth) }]
    } else {
        Seq::empty()
    }
}

/// The events of a document that was written from nodes with an indentation of four spaces.
/// A tag goes on a line of its own unless it is the first or follows text.
pub open spec fn read_back(nodes: Seq<XmlNodeModel>, depth: nat, line_break: bool) -> Seq<
    XmlEventModel,
>
    decreases nodes.len(),
{
    if nodes.len() == 0 {
        seq![XmlEventModel::Eof]
    } else {
        let rest = nodes.drop_first();
        match nodes[0] {
            XmlNodeModel::Start { name, attributes } => break_before(depth, line_break) + seq![
                XmlEventModel::Start { name, attributes: attribute_pairs(attributes) },
            ] + read_back(rest, depth + 1, true),
            XmlNodeModel::Text { text } => seq![XmlEventModel::Text { text }] + read_back(
                rest,
                depth,
                false,
            ),
            XmlNodeModel::End { name } => {
                let outer: nat = if depth > 0 {
                    (depth - 1) as nat
                } else {
                    0
                };
                break_before(outer, line_break) + seq![XmlEventModel::End { name }] + read_back(
                    rest,
                    outer,
                    true,
                )
            },
        }
    }
}

/// The nodes that were written to a writer.
pub uninterp spec fn xml_written(writer: quick_xml::Writer<Vec<u8>>) -> Seq<XmlNodeModel>;

/// The text that `quick_xml::Writer` makes of nodes, with an indentation of four spaces.
pub uninterp spec fn xml_text(nodes: Seq<XmlNodeModel>) -> Seq<char>;

/// `quick_xml::Writer::new_with_indent` on an empty vector: nothing is written yet.
#[verifier::external_body]
fn open_writer() -> (writer: Writer<Vec<u8>>)
    ensures
        xml_written(writer) == Seq::<XmlNodeModel>::empty(),
{
    Writer::new_with_indent(Vec::new(), b' ', 4)
}

/// `quick_xml::Writer::write_event`: appends one node. Appending to a vector does not fail.
#[verifier::external_body]
fn write_node(writer: &mut Writer<Vec<u8>>, node: &XmlNode)
    ensures
        xml_written(*final(writer)) == xml_written(*old(writer)).push(node@),
{
    let _ = writer.write_event(
        match node {
            XmlNode::Start { name, attributes } => Event::Start(
                BytesStart::new(name.as_str()).with_attributes(
                    attributes.iter().map(|pair| (pair.0.as_str(), pair.1.as_str())),
                ),
            ),
            XmlNode::Text { text } => Event::Text(BytesText::new(text.as_str())),
            XmlNode::End { name } => Event::End(BytesEnd::new(name.as_str())),
        },
    );
}

/// `quick_xml::Writer::into_inner`: the text that was written. `quick_xml` escapes what it
/// writes into attributes and undoes that on reading, so that a plain document is read back
/// as it was written, with the indentation as text in between.
#[verifier::external_body]
fn written_text(writer: Writer<Vec<u8>>) -> (text: String)
    ensures
        text@ == xml_text(xml_written(writer)),
        plain_document(xml_written(writer), Seq::empty()) ==> xml_events(text@) == read_back(
            xml_written(writer),
            0,
            false,
        ),
{
    String::from_utf8_lossy(&writer.into_inner()).into_owned()
}

/// The models of a list of nodes.
pub open spec fn node_models(nodes: Seq<XmlNode>) -> Seq<XmlNodeModel> {
    Seq::new(nodes.len(), |i: int| nodes[i]@)
}

/// Writes nodes as a document with an indentation of four spaces.
pub fn render_nodes(nodes: &Vec<XmlNode>) -> (text: String)
    ensures
        text@ == xml_text(node_models(nodes@)),
        plain_document(node_models(nodes@), Seq::empty()) ==> xml_events(text@) == read_back(
            node_models(nodes@),
            0,
            false,
        ),
{
    let mut writer = open_writer();
    let mut index: usize = 0;
    assert(node_models(nodes@).take(0) =~= Seq::<XmlNodeModel>::empty());
    while index < nodes.len()
        invariant
            index <= nodes.len(),
            xml_written(writer) == node_models(nodes@).take(index as int),
        decreases nodes.len() - index,
    {
        write_node(&mut writer, &nodes[index]);
        index += 1;
        assert(node_models(nodes@).take(index as int) =~= node_models(nodes@).take(
            index - 1,
        ).push(nodes@[index - 1]@));
    }
    assert(node_models(nodes@).take(index as int) =~= node_models(nodes@));
    written_text(writer)
}

} // verus!
