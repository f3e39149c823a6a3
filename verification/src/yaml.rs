//! YAML event stream, as reported by the `granit_parser` that `serde_saphyr` uses.

use serde_saphyr::granit_parser::{Event, Parser, ScalarStyle, StructureStyle};
use vstd::prelude::*;

verus! {

/// How a mapping or sequence is written.
#[derive(Clone, Copy, Debug, PartialEq, Eq)]
pub enum Structure {
    /// `key: value` lines, `- item` lines.
    Block,
    /// `{key: value}`, `[item]`.
    Flow,
}

/// How a scalar is written.
#[derive(Clone, Copy, Debug, PartialEq, Eq)]
pub enum Quoting {
    Plain,
    SingleQuoted,
    DoubleQuoted,
    /// A `|` block.
    Literal,
    /// A `>` block.
    Folded,
}

/// What kind of event the parser reported, without its position.
#[derive(Clone, Debug, PartialEq, Eq)]
pub enum YamlNode {
    MappingStart(Structure),
    SequenceStart,
    /// A scalar's value.
    Scalar(String),
    Alias,
    MappingEnd,
    SequenceEnd,
    /// Stream and document markers, and anything else without bearing on mappings.
    Other,
}

/// Where an event stands: the character offsets of its start and end, and the column
/// of its start.
#[derive(Clone, Debug, PartialEq, Eq)]
pub struct YamlSpan {
    pub start: usize,
    pub end: usize,
    pub col: usize,
}

/// One parser event, with the source positions (character offsets) that the
/// splicing logic reads.
#[derive(Clone, Debug, PartialEq, Eq)]
pub enum YamlItem {
    /// Start of a block mapping; the column of its first key.
    BlockMapping(usize),
    /// Start of a flow mapping (`{a: 1}`).
    FlowMapping,
    SequenceStart,
    /// A scalar: its value, whether it was written plain, and its span.
    Scalar { value: String, plain: bool, start: usize, end: usize },
    /// An alias (`*name`); the end of its span.
    Alias(usize),
    /// End of a mapping; the start of its span.
    MappingEnd(usize),
    SequenceEnd,
    /// Stream and document markers, and anything else without bearing on mappings.
    Other,
}

/// The kinds of the events that the YAML parser yields for `text`, in order, ending
/// with the parser's error message when it stops on one.
pub uninterp spec fn yaml_nodes(text: Seq<char>) -> Seq<Result<YamlNode, String>>;

/// The spans of the events that the YAML parser yields for `text` (`None` for an error).
pub uninterp spec fn yaml_spans(text: Seq<char>) -> Seq<Option<YamlSpan>>;

/// How each scalar event that the YAML parser yields for `text` is written (`None`
/// for the other events and for an error).
pub uninterp spec fn yaml_quoting(text: Seq<char>) -> Seq<Option<Quoting>>;

/// Runs `granit_parser::Parser::new_from_str` over `text` to its end (the parser is
/// fused: an error ends it) and keeps each event's kind.
#[verifier::external_body]
fn scan_nodes(text: &str) -> (r: Vec<Result<YamlNode, String>>)
    ensures
        r@ == yaml_nodes(text@),
{
    Parser::new_from_str(text).map(|r| r.map(|(e, _)| match e {
        Event::MappingStart(style, ..) => YamlNode::MappingStart(match style {
            StructureStyle::Block => Structure::Block,
            StructureStyle::Flow => Structure::Flow,
        }),
        Event::SequenceStart(..) => YamlNode::SequenceStart,
        Event::Scalar(v, ..) => YamlNode::Scalar(v.into_owned()),
        Event::Alias(_) => YamlNode::Alias,
        Event::MappingEnd => YamlNode::MappingEnd,
        Event::SequenceEnd => YamlNode::SequenceEnd,
        _ => YamlNode::Other,
    }).map_err(|e| e.to_string())).collect()
}

/// Runs `granit_parser::Parser::new_from_str` over `text` to its end and keeps the
/// `ScalarStyle` of each scalar event.
#[verifier::external_body]
fn scan_quoting(text: &str) -> (r: Vec<Option<Quoting>>)
    ensures
        r@ == yaml_quoting(text@),
{
    Parser::new_from_str(text).map(|r| match r {
        Ok((Event::Scalar(_, style, ..), _)) => Some(match style {
            ScalarStyle::Plain => Quoting::Plain,
            ScalarStyle::SingleQuoted => Quoting::SingleQuoted,
            ScalarStyle::DoubleQuoted => Quoting::DoubleQuoted,
            ScalarStyle::Literal => Quoting::Literal,
            ScalarStyle::Folded => Quoting::Folded,
        }),
        _ => None,
    }).collect()
}

/// Runs `granit_parser::Parser::new_from_str` over `text` to its end and keeps each
/// event's span: `Marker::index` (characters) of its start and end, `Marker::col` of
/// its start.
#[verifier::external_body]
fn scan_spans(text: &str) -> (r: Vec<Option<YamlSpan>>)
    ensures
        r@ == yaml_spans(text@),
{
    Parser::new_from_str(text).map(|r| r.ok().map(|(_, s)| YamlSpan {
        start: s.start.index(),
        end: s.end.index(),
        col: s.start.col(),
    })).collect()
}

/// The message given for an event whose span the parser did not report.
pub open spec fn missing_span_message() -> Seq<char> {
    seq!['e', 'v', 'e', 'n', 't', ' ', 'w', 'i', 't', 'h', 'o', 'u', 't', ' ', 'a', ' ', 's', 'p', 'a', 'n']
}

/// An event put together from its kind, its span and, for a scalar, how it is
/// written.
pub open spec fn item_of(node: YamlNode, span: YamlSpan, quoting: Option<Quoting>) -> YamlItem {
    match node {
        YamlNode::MappingStart(Structure::Block) => YamlItem::BlockMapping(span.col),
        YamlNode::MappingStart(Structure::Flow) => YamlItem::FlowMapping,
        YamlNode::SequenceStart => YamlItem::SequenceStart,
        YamlNode::Scalar(value) => YamlItem::Scalar {
            value,
            plain: quoting == Some(Quoting::Plain),
            start: span.start,
            end: span.end,
        },
        YamlNode::Alias => YamlItem::Alias(span.end),
        YamlNode::MappingEnd => YamlItem::MappingEnd(span.start),
        YamlNode::SequenceEnd => YamlItem::SequenceEnd,
        YamlNode::Other => YamlItem::Other,
    }
}

/// Event `i` of the stream, from its kind, its span and its quoting. The lists come
/// from one parser run each over the same text; an event without a span is reported
/// as an error.
pub open spec fn event_at(
    nodes: Seq<Result<YamlNode, String>>,
    spans: Seq<Option<YamlSpan>>,
    quoting: Seq<Option<Quoting>>,
    i: int,
) -> Result<YamlItem, Seq<char>> {
    match nodes[i] {
        Err(e) => Err(e@),
        Ok(node) => if i < spans.len() && spans[i] is Some {
            Ok(item_of(node, spans[i]->0, if i < quoting.len() { quoting[i] } else { None }))
        } else {
            Err(missing_span_message())
        },
    }
}

/// Converts the error of an item to its characters, for comparing streams.
pub open spec fn item_view(item: Result<YamlItem, String>) -> Result<YamlItem, Seq<char>> {
    match item {
        Ok(i) => Ok(i),
        Err(e) => Err(e@),
    }
}

/// The events that the YAML parser yields for `text`, each with its position, ending
/// with an error message when the parser stops on one.
pub open spec fn yaml_events(text: Seq<char>) -> Seq<Result<YamlItem, Seq<char>>> {
    Seq::new(
        yaml_nodes(text).len(),
        |i: int| event_at(yaml_nodes(text), yaml_spans(text), yaml_quoting(text), i),
    )
}

/// A list of events, errors taken by their characters.
pub open spec fn items_view(items: Seq<Result<YamlItem, String>>) -> Seq<Result<YamlItem, Seq<char>>> {
    items.map_values(|x: Result<YamlItem, String>| item_view(x))
}

fn message(s: &str) -> (r: String)
    ensures
        r@ == s@,
{
    s.to_owned()
}

/// The YAML parser's events for `text`, with their positions.
pub fn scan_yaml(text: &str) -> (r: Vec<Result<YamlItem, String>>)
    ensures
        items_view(r@) == yaml_events(text@),
{
    let nodes = scan_nodes(text);
    let spans = scan_spans(text);
    let quoting = scan_quoting(text);
    let mut r: Vec<Result<YamlItem, String>> = Vec::new();
    let mut i: usize = 0;
    while i < nodes.len()
        invariant
            i <= nodes@.len(),
            nodes@ == yaml_nodes(text@),
            spans@ == yaml_spans(text@),
            quoting@ == yaml_quoting(text@),
            r@.len() == i,
            forall|k: int| 0 <= k < i ==> item_view(#[trigger] r@[k]) == event_at(nodes@, spans@, quoting@, k),
        decreases nodes@.len() - i,
    {
        let item = match &nodes[i] {
            Err(e) => Err(e.clone()),
            Ok(node) => if i < spans.len() && spans[i].is_some() {
                let span = spans[i].as_ref().unwrap();
                let plain = i < quoting.len() && match quoting[i] {
                    Some(Quoting::Plain) => true,
                    _ => false,
                };
                Ok(match node {
                    YamlNode::MappingStart(Structure::Block) => YamlItem::BlockMapping(span.col),
                    YamlNode::MappingStart(Structure::Flow) => YamlItem::FlowMapping,
                    YamlNode::SequenceStart => YamlItem::SequenceStart,
                    YamlNode::Scalar(value) => YamlItem::Scalar { value: value.clone(), plain, start: span.start, end: span.end },
                    YamlNode::Alias => YamlItem::Alias(span.end),
                    YamlNode::MappingEnd => YamlItem::MappingEnd(span.start),
                    YamlNode::SequenceEnd => YamlItem::SequenceEnd,
                    YamlNode::Other => YamlItem::Other,
                })
            } else {
                proof {
                    reveal_strlit("event without a span");
                }
                let m = message("event without a span");
                assert(m@ =~= missing_span_message());
                Err(m)
            },
        };
        assert(item_view(item) == event_at(nodes@, spans@, quoting@, i as int));
        let ghost before = r@;
        r.push(item);
        assert(forall|k: int| 0 <= k < i ==> r@[k] == before[k]);
        i = i + 1;
    }
    assert(items_view(r@) =~= yaml_events(text@));
    r
}

} // verus!
