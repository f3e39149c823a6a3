//! The block mappings of a YAML document, located in its source text.
//!
//! Built from the parser's event stream. Only block mappings whose keys are
//! all scalars are recorded: those are the ones that can be extended by
//! splicing lines into the text. Flow mappings (`{a: 1}`) and mappings with
//! complex keys are left out.

use vstd::prelude::*;

use crate::text::line_end;
use crate::yaml::YamlItem;

verus! {

/// One `key: value` entry of a recorded mapping.
#[derive(Clone, Debug, PartialEq, Eq)]
pub struct MapEntry {
    pub key: String,
    /// Character offsets of the entry's source, from its key up to the next entry
    /// (or the end of the mapping).
    pub start: usize,
    pub end: usize,
    /// The value, when it is a recorded mapping: its index in [`Document::mappings`].
    pub mapping: Option<usize>,
}

/// A recorded block mapping.
#[derive(Clone, Debug, PartialEq, Eq)]
pub struct Mapping {
    /// Column of its keys.
    pub indent: usize,
    /// Character offset of the end of the last line holding one of its values,
    /// where new entries go.
    pub end: usize,
    pub entries: Vec<MapEntry>,
}

/// The recorded mappings of a document whose root is a block mapping. A nested
/// mapping is recorded before the mapping that holds it.
#[derive(Clone, Debug, PartialEq, Eq)]
pub struct Document {
    pub mappings: Vec<Mapping>,
    pub root: usize,
}

/// Why the event stream could not be read.
pub enum ParseErrorView {
    Scan(Seq<char>),
    UnmatchedMappingEnd,
    UnmatchedSequenceEnd,
}

impl View for ParseError {
    type V = ParseErrorView;

    open spec fn view(&self) -> ParseErrorView {
        match self {
            ParseError::Scan(m) => ParseErrorView::Scan(m@),
            ParseError::UnmatchedMappingEnd => ParseErrorView::UnmatchedMappingEnd,
            ParseError::UnmatchedSequenceEnd => ParseErrorView::UnmatchedSequenceEnd,
        }
    }
}

/// Why the event stream could not be read.
#[derive(Clone, Debug, PartialEq, Eq)]
pub enum ParseError {
    /// The parser reported a syntax error.
    Scan(String),
    /// A mapping ended while no mapping was open.
    UnmatchedMappingEnd,
    /// A sequence ended while nothing was open.
    UnmatchedSequenceEnd,
}

pub struct EntryView {
    pub key: Seq<char>,
    pub start: nat,
    pub end: nat,
    pub mapping: Option<nat>,
}

pub struct MappingView {
    pub indent: nat,
    pub end: nat,
    pub entries: Seq<EntryView>,
}

pub struct DocumentView {
    pub mappings: Seq<MappingView>,
    pub root: nat,
}

pub open spec fn opt_nat(o: Option<usize>) -> Option<nat> {
    match o {
        Some(v) => Some(v as nat),
        None => None,
    }
}

impl View for MapEntry {
    type V = EntryView;

    open spec fn view(&self) -> EntryView {
        EntryView {
            key: self.key@,
            start: self.start as nat,
            end: self.end as nat,
            mapping: opt_nat(self.mapping),
        }
    }
}

pub open spec fn entries_view(entries: Seq<MapEntry>) -> Seq<EntryView> {
    entries.map_values(|e: MapEntry| e@)
}

impl View for Mapping {
    type V = MappingView;

    open spec fn view(&self) -> MappingView {
        MappingView {
            indent: self.indent as nat,
            end: self.end as nat,
            entries: entries_view(self.entries@),
        }
    }
}

pub open spec fn mappings_view(ms: Seq<Mapping>) -> Seq<MappingView> {
    ms.map_values(|m: Mapping| m@)
}

impl View for Document {
    type V = DocumentView;

    open spec fn view(&self) -> DocumentView {
        DocumentView { mappings: mappings_view(self.mappings@), root: self.root as nat }
    }
}

/// Each nested mapping is recorded before the mapping that holds it.
pub open spec fn children_ordered(nodes: Seq<MappingView>) -> bool {
    forall|i: int, j: int|
        #![trigger nodes[i].entries[j]]
        0 <= i < nodes.len() && 0 <= j < nodes[i].entries.len()
            ==> (nodes[i].entries[j].mapping matches Some(c) ==> c < i)
}

/// Every mapping ends within a text of `text_len` characters.
pub open spec fn ends_within(nodes: Seq<MappingView>, text_len: nat) -> bool {
    forall|i: int| 0 <= i < nodes.len() ==> #[trigger] nodes[i].end <= text_len
}

/// Every mapping ends at the end of a line of `text`: on a newline, or at the end.
pub open spec fn ends_at_line_ends(nodes: Seq<MappingView>, text: Seq<char>) -> bool {
    forall|i: int|
        0 <= i < nodes.len() ==> (#[trigger] nodes[i]).end == text.len() || text[nodes[i].end as int]
            == '\n'
}

pub open spec fn nodes_wf(nodes: Seq<MappingView>, text_len: nat) -> bool {
    &&& children_ordered(nodes)
    &&& ends_within(nodes, text_len)
}

impl DocumentView {
    pub open spec fn wf(self, text_len: nat) -> bool {
        &&& self.root < self.mappings.len()
        &&& nodes_wf(self.mappings, text_len)
    }
}

/// An open collection while reading events.
pub enum FrameView {
    Mapping {
        /// Block style with scalar keys only.
        extendable: bool,
        indent: nat,
        entries: Seq<EntryView>,
        /// A key was read and its value comes next: the offset past the key.
        key_end: Option<nat>,
    },
    Sequence,
}

pub struct ParseState {
    pub nodes: Seq<MappingView>,
    pub stack: Seq<FrameView>,
    /// Offset just past the most recent value.
    pub last_end: nat,
}

pub enum Outcome {
    Running,
    /// The root closed: the index of its mapping when it is a recorded one.
    Done(Option<nat>),
    Failed(ParseErrorView),
}

pub struct Progress {
    pub state: ParseState,
    pub outcome: Outcome,
}

pub open spec fn set_last_end(entries: Seq<EntryView>, pos: nat) -> Seq<EntryView> {
    if entries.len() > 0 {
        let e = entries.last();
        entries.update(
            entries.len() - 1,
            EntryView { key: e.key, start: e.start, end: pos, mapping: e.mapping },
        )
    } else {
        entries
    }
}

pub open spec fn set_last_mapping(entries: Seq<EntryView>, m: Option<nat>) -> Seq<EntryView> {
    if entries.len() > 0 {
        let e = entries.last();
        entries.update(
            entries.len() - 1,
            EntryView { key: e.key, start: e.start, end: e.end, mapping: m },
        )
    } else {
        entries
    }
}

/// A collection or alias starts. Where a key is expected, that makes a complex
/// key, and the enclosing mapping cannot be extended.
pub open spec fn begin_value(stack: Seq<FrameView>) -> Seq<FrameView> {
    if stack.len() > 0 {
        match stack.last() {
            FrameView::Mapping { extendable: _, indent, entries, key_end: None } => stack.update(
                stack.len() - 1,
                FrameView::Mapping { extendable: false, indent, entries, key_end: None },
            ),
            _ => stack,
        }
    } else {
        stack
    }
}

/// A nested node closed. When it was the value of an entry, attaches `m` to it.
pub open spec fn end_value(stack: Seq<FrameView>, m: Option<nat>) -> Seq<FrameView> {
    if stack.len() > 0 {
        match stack.last() {
            FrameView::Mapping { extendable, indent, entries, key_end: Some(_) } => stack.update(
                stack.len() - 1,
                FrameView::Mapping {
                    extendable,
                    indent,
                    entries: set_last_mapping(entries, m),
                    key_end: None,
                },
            ),
            _ => stack,
        }
    } else {
        stack
    }
}

pub open spec fn running(state: ParseState) -> Progress {
    Progress { state, outcome: Outcome::Running }
}

pub open spec fn step_scalar(
    st: ParseState,
    value: Seq<char>,
    plain: bool,
    start: nat,
    end: nat,
) -> ParseState {
    if st.stack.len() > 0 {
        match st.stack.last() {
            FrameView::Mapping { extendable, indent, entries, key_end: None } => ParseState {
                nodes: st.nodes,
                stack: st.stack.update(
                    st.stack.len() - 1,
                    FrameView::Mapping {
                        extendable,
                        indent,
                        entries: set_last_end(entries, start).push(
                            EntryView { key: value, start, end: start, mapping: None },
                        ),
                        key_end: Some(end),
                    },
                ),
                last_end: end,
            },
            FrameView::Mapping { extendable, indent, entries, key_end: Some(k) } => ParseState {
                nodes: st.nodes,
                stack: st.stack.update(
                    st.stack.len() - 1,
                    FrameView::Mapping { extendable, indent, entries, key_end: None },
                ),
                last_end: if value.len() == 0 && plain {
                    k
                } else {
                    end
                },
            },
            FrameView::Sequence => ParseState { last_end: end, ..st },
        }
    } else {
        ParseState { last_end: end, ..st }
    }
}

pub open spec fn step_mapping_end(text: Seq<char>, st: ParseState, start: nat) -> Progress {
    if st.stack.len() == 0 {
        Progress { state: st, outcome: Outcome::Failed(ParseErrorView::UnmatchedMappingEnd) }
    } else {
        match st.stack.last() {
            FrameView::Mapping { extendable, indent, entries, key_end: _ } => {
                let rest = st.stack.drop_last();
                let entries = set_last_end(entries, start);
                let nodes = if extendable {
                    st.nodes.push(
                        MappingView {
                            indent,
                            end: crate::text::line_end_spec(text, st.last_end as int) as nat,
                            entries,
                        },
                    )
                } else {
                    st.nodes
                };
                let m = if extendable {
                    Some(st.nodes.len())
                } else {
                    None
                };
                if rest.len() == 0 {
                    Progress {
                        state: ParseState { nodes, stack: rest, last_end: st.last_end },
                        outcome: Outcome::Done(m),
                    }
                } else {
                    running(
                        ParseState { nodes, stack: end_value(rest, m), last_end: st.last_end },
                    )
                }
            },
            FrameView::Sequence => Progress {
                state: st,
                outcome: Outcome::Failed(ParseErrorView::UnmatchedMappingEnd),
            },
        }
    }
}

pub open spec fn step_sequence_end(st: ParseState) -> Progress {
    if st.stack.len() == 0 {
        Progress { state: st, outcome: Outcome::Failed(ParseErrorView::UnmatchedSequenceEnd) }
    } else {
        let rest = st.stack.drop_last();
        if rest.len() == 0 {
            Progress { state: ParseState { stack: rest, ..st }, outcome: Outcome::Done(None) }
        } else {
            running(ParseState { stack: end_value(rest, None), ..st })
        }
    }
}

/// What one event does to the state of a running read.
pub open spec fn step(text: Seq<char>, st: ParseState, item: Result<YamlItem, Seq<char>>) -> Progress {
    match item {
        Err(e) => Progress { state: st, outcome: Outcome::Failed(ParseErrorView::Scan(e)) },
        Ok(YamlItem::BlockMapping(col)) => running(
            ParseState {
                stack: begin_value(st.stack).push(
                    FrameView::Mapping {
                        extendable: true,
                        indent: col as nat,
                        entries: seq![],
                        key_end: None,
                    },
                ),
                ..st
            },
        ),
        Ok(YamlItem::FlowMapping) => running(
            ParseState {
                stack: begin_value(st.stack).push(
                    FrameView::Mapping {
                        extendable: false,
                        indent: 0,
                        entries: seq![],
                        key_end: None,
                    },
                ),
                ..st
            },
        ),
        Ok(YamlItem::SequenceStart) => running(
            ParseState { stack: begin_value(st.stack).push(FrameView::Sequence), ..st },
        ),
        Ok(YamlItem::Scalar { value, plain, start, end }) => running(
            step_scalar(st, value@, plain, start as nat, end as nat),
        ),
        Ok(YamlItem::Alias(end)) => running(
            ParseState {
                stack: end_value(begin_value(st.stack), None),
                last_end: end as nat,
                ..st
            },
        ),
        Ok(YamlItem::MappingEnd(start)) => step_mapping_end(text, st, start as nat),
        Ok(YamlItem::SequenceEnd) => step_sequence_end(st),
        Ok(YamlItem::Other) => running(st),
    }
}

pub open spec fn initial() -> ParseState {
    ParseState { nodes: seq![], stack: seq![], last_end: 0 }
}

/// The read after the first `n` events; it stops changing once it is no longer running.
pub open spec fn read_events(text: Seq<char>, items: Seq<Result<YamlItem, Seq<char>>>, n: nat) -> Progress
    decreases n,
{
    if n == 0 {
        running(initial())
    } else {
        let p = read_events(text, items, (n - 1) as nat);
        if p.outcome is Running && n <= items.len() {
            step(text, p.state, items[n - 1])
        } else {
            p
        }
    }
}

/// The document that the event stream `items` of `text` describes: `None` when its root
/// is not a recorded block mapping (or the stream ends before the root closes).
pub open spec fn document_of(text: Seq<char>, items: Seq<Result<YamlItem, Seq<char>>>) -> Result<
    Option<DocumentView>,
    ParseErrorView,
> {
    let p = read_events(text, items, items.len());
    match p.outcome {
        Outcome::Running => Ok(None),
        Outcome::Done(None) => Ok(None),
        Outcome::Done(Some(root)) => Ok(Some(DocumentView { mappings: p.state.nodes, root })),
        Outcome::Failed(e) => Err(e),
    }
}

pub open spec fn document_result_view(r: Result<Option<Document>, ParseError>) -> Result<
    Option<DocumentView>,
    ParseErrorView,
> {
    match r {
        Ok(Some(d)) => Ok(Some(d@)),
        Ok(None) => Ok(None),
        Err(e) => Err(e@),
    }
}

pub proof fn lemma_read_events_stops(
    text: Seq<char>,
    items: Seq<Result<YamlItem, Seq<char>>>,
    i: nat,
    n: nat,
)
    requires
        i <= n,
        !(read_events(text, items, i).outcome is Running),
    ensures
        read_events(text, items, n) == read_events(text, items, i),
    decreases n - i,
{
    if i < n {
        lemma_read_events_stops(text, items, i, (n - 1) as nat);
    }
}

} // verus!

verus! {

/// An open collection while reading events.
enum Frame {
    Mapping { extendable: bool, indent: usize, entries: Vec<MapEntry>, key_end: Option<usize> },
    Sequence,
}

impl View for Frame {
    type V = FrameView;

    closed spec fn view(&self) -> FrameView {
        match self {
            Frame::Mapping { extendable, indent, entries, key_end } => FrameView::Mapping {
                extendable: *extendable,
                indent: *indent as nat,
                entries: entries_view(entries@),
                key_end: opt_nat(*key_end),
            },
            Frame::Sequence => FrameView::Sequence,
        }
    }
}

spec fn stack_view(stack: Seq<Frame>) -> Seq<FrameView> {
    stack.map_values(|f: Frame| f@)
}

spec fn frame_children_below(f: FrameView, n: nat) -> bool {
    match f {
        FrameView::Mapping { entries, .. } => forall|j: int|
            0 <= j < entries.len() ==> ((#[trigger] entries[j]).mapping matches Some(c) ==> c < n),
        FrameView::Sequence => true,
    }
}

spec fn state_wf(st: ParseState, text: Seq<char>) -> bool {
    &&& nodes_wf(st.nodes, text.len())
    &&& ends_at_line_ends(st.nodes, text)
    &&& forall|k: int|
        0 <= k < st.stack.len() ==> frame_children_below(#[trigger] st.stack[k], st.nodes.len())
}

struct Builder {
    nodes: Vec<Mapping>,
    stack: Vec<Frame>,
    last_end: usize,
}

impl View for Builder {
    type V = ParseState;

    closed spec fn view(&self) -> ParseState {
        ParseState {
            nodes: mappings_view(self.nodes@),
            stack: stack_view(self.stack@),
            last_end: self.last_end as nat,
        }
    }
}

fn set_last_end_exec(entries: &mut Vec<MapEntry>, pos: usize)
    ensures
        entries_view(final(entries)@) == set_last_end(entries_view(old(entries)@), pos as nat),
{
    if entries.len() > 0 {
        let mut e = entries.pop().unwrap();
        e.end = pos;
        entries.push(e);
        assert(entries_view(entries@) =~= set_last_end(entries_view(old(entries)@), pos as nat));
    }
}

fn set_last_mapping_exec(entries: &mut Vec<MapEntry>, m: Option<usize>)
    ensures
        entries_view(final(entries)@) == set_last_mapping(entries_view(old(entries)@), opt_nat(m)),
{
    if entries.len() > 0 {
        let mut e = entries.pop().unwrap();
        e.mapping = m;
        entries.push(e);
        assert(entries_view(entries@) =~= set_last_mapping(
            entries_view(old(entries)@),
            opt_nat(m),
        ));
    }
}

fn begin_value_exec(stack: &mut Vec<Frame>)
    ensures
        stack_view(final(stack)@) == begin_value(stack_view(old(stack)@)),
{
    if stack.len() > 0 {
        let top = stack.pop().unwrap();
        let next = match top {
            Frame::Mapping { extendable: _, indent, entries, key_end: None } => Frame::Mapping {
                extendable: false,
                indent,
                entries,
                key_end: None,
            },
            other => other,
        };
        stack.push(next);
        assert(stack_view(stack@) =~= begin_value(stack_view(old(stack)@)));
    }
}

fn end_value_exec(stack: &mut Vec<Frame>, m: Option<usize>)
    ensures
        stack_view(final(stack)@) == end_value(stack_view(old(stack)@), opt_nat(m)),
{
    if stack.len() > 0 {
        let top = stack.pop().unwrap();
        let next = match top {
            Frame::Mapping { extendable, indent, mut entries, key_end: Some(_) } => {
                set_last_mapping_exec(&mut entries, m);
                Frame::Mapping { extendable, indent, entries, key_end: None }
            },
            other => other,
        };
        stack.push(next);
        assert(stack_view(stack@) =~= end_value(stack_view(old(stack)@), opt_nat(m)));
    }
}

impl Builder {
    fn scalar(&mut self, value: &String, plain: bool, start: usize, end: usize)
        ensures
            final(self)@ == step_scalar(old(self)@, value@, plain, start as nat, end as nat),
    {
        if self.stack.len() == 0 {
            self.last_end = end;
            return;
        }
        let top = self.stack.pop().unwrap();
        let next = match top {
            Frame::Mapping { extendable, indent, mut entries, key_end: None } => {
                let ghost before = entries_view(entries@);
                set_last_end_exec(&mut entries, start);
                let ghost mid = entries_view(entries@);
                entries.push(MapEntry { key: value.clone(), start, end: start, mapping: None });
                self.last_end = end;
                assert(entries_view(entries@) =~= mid.push(
                    EntryView { key: value@, start: start as nat, end: start as nat, mapping: None },
                ));
                Frame::Mapping { extendable, indent, entries, key_end: Some(end) }
            },
            Frame::Mapping { extendable, indent, entries, key_end: Some(k) } => {
                self.last_end = if value.as_str().is_empty() && plain {
                    k
                } else {
                    end
                };
                Frame::Mapping { extendable, indent, entries, key_end: None }
            },
            Frame::Sequence => {
                self.last_end = end;
                Frame::Sequence
            },
        };
        self.stack.push(next);
        assert(stack_view(self.stack@) =~= step_scalar(
            old(self)@,
            value@,
            plain,
            start as nat,
            end as nat,
        ).stack);
    }
}


spec fn progress_of(st: ParseState, r: Option<Result<Option<usize>, ParseError>>) -> Progress {
    match r {
        None => running(st),
        Some(Ok(m)) => Progress { state: st, outcome: Outcome::Done(opt_nat(m)) },
        Some(Err(e)) => Progress { state: st, outcome: Outcome::Failed(e@) },
    }
}

proof fn lemma_begin_value_wf(stack: Seq<FrameView>, n: nat)
    requires
        forall|k: int| 0 <= k < stack.len() ==> frame_children_below(#[trigger] stack[k], n),
    ensures
        forall|k: int|
            0 <= k < begin_value(stack).len() ==> frame_children_below(
                #[trigger] begin_value(stack)[k],
                n,
            ),
{
    if stack.len() > 0 {
        assert(frame_children_below(stack[stack.len() - 1], n));
    }
}

proof fn lemma_end_value_wf(stack: Seq<FrameView>, m: Option<nat>, n: nat)
    requires
        forall|k: int| 0 <= k < stack.len() ==> frame_children_below(#[trigger] stack[k], n),
        m matches Some(c) ==> c < n,
    ensures
        forall|k: int|
            0 <= k < end_value(stack, m).len() ==> frame_children_below(
                #[trigger] end_value(stack, m)[k],
                n,
            ),
{
    if stack.len() > 0 {
        let top = stack[stack.len() - 1];
        assert(frame_children_below(top, n));
        match top {
            FrameView::Mapping { extendable, indent, entries, key_end: Some(_) } => {
                let es = set_last_mapping(entries, m);
                assert forall|j: int| 0 <= j < es.len() implies ((#[trigger] es[j]).mapping matches Some(
                    c,
                ) ==> c < n) by {
                    if j < entries.len() - 1 {
                        assert(es[j] == entries[j]);
                    }
                }
            },
            _ => {},
        }
    }
}

proof fn lemma_frames_grow(stack: Seq<FrameView>, n: nat, n2: nat)
    requires
        n <= n2,
        forall|k: int| 0 <= k < stack.len() ==> frame_children_below(#[trigger] stack[k], n),
    ensures
        forall|k: int| 0 <= k < stack.len() ==> frame_children_below(#[trigger] stack[k], n2),
{
    assert forall|k: int| 0 <= k < stack.len() implies frame_children_below(
        #[trigger] stack[k],
        n2,
    ) by {
        assert(frame_children_below(stack[k], n));
    }
}

impl Builder {
    fn mapping_end(&mut self, text: &[char], start: usize) -> (r: Option<
        Result<Option<usize>, ParseError>,
    >)
        requires
            state_wf(old(self)@, text@),
        ensures
            step_mapping_end(text@, old(self)@, start as nat) == progress_of(final(self)@, r),
            state_wf(final(self)@, text@),
            r matches Some(Ok(Some(c))) ==> c < final(self)@.nodes.len(),
    {
        if self.stack.len() == 0 {
            return Some(Err(ParseError::UnmatchedMappingEnd));
        }
        let ghost old_stack = stack_view(self.stack@);
        let top = self.stack.pop().unwrap();
        assert(stack_view(self.stack@) =~= old_stack.drop_last());
        match top {
            Frame::Sequence => {
                self.stack.push(Frame::Sequence);
                assert(stack_view(self.stack@) =~= old_stack);
                Some(Err(ParseError::UnmatchedMappingEnd))
            },
            Frame::Mapping { extendable, indent, mut entries, key_end: _ } => {
                let ghost n0 = self.nodes@.len();
                assert(frame_children_below(old_stack[old_stack.len() - 1], n0 as nat));
                set_last_end_exec(&mut entries, start);
                let m = if extendable {
                    let end = line_end(text, self.last_end);
                    let ghost es = entries_view(entries@);
                    self.nodes.push(Mapping { indent, end, entries });
                    assert(mappings_view(self.nodes@) =~= mappings_view(old(self).nodes@).push(
                        MappingView { indent: indent as nat, end: end as nat, entries: es },
                    ));
                    Some(self.nodes.len() - 1)
                } else {
                    None
                };
                proof {
                    lemma_frames_grow(stack_view(self.stack@), n0 as nat, self.nodes@.len() as nat);
                }
                if self.stack.len() == 0 {
                    return Some(Ok(m));
                }
                proof {
                    lemma_end_value_wf(stack_view(self.stack@), opt_nat(m), self.nodes@.len() as nat);
                }
                end_value_exec(&mut self.stack, m);
                None
            },
        }
    }

    fn sequence_end(&mut self, Ghost(text): Ghost<Seq<char>>) -> (r: Option<
        Result<Option<usize>, ParseError>,
    >)
        requires
            state_wf(old(self)@, text),
        ensures
            step_sequence_end(old(self)@) == progress_of(final(self)@, r),
            state_wf(final(self)@, text),
            r matches Some(Ok(m)) ==> m is None,
    {
        if self.stack.len() == 0 {
            return Some(Err(ParseError::UnmatchedSequenceEnd));
        }
        let ghost old_stack = stack_view(self.stack@);
        let _ = self.stack.pop();
        assert(stack_view(self.stack@) =~= old_stack.drop_last());
        if self.stack.len() == 0 {
            return Some(Ok(None));
        }
        proof {
            lemma_end_value_wf(stack_view(self.stack@), None, self.nodes@.len() as nat);
        }
        end_value_exec(&mut self.stack, None);
        None
    }
}

/// Reads the event stream `items` of `text` into its document: the recorded block
/// mappings, when the root is one. See [`document_of`].
pub fn read_document(text: &[char], items: &Vec<Result<YamlItem, String>>) -> (r: Result<
    Option<Document>,
    ParseError,
>)
    ensures
        document_result_view(r) == document_of(text@, crate::yaml::items_view(items@)),
        r matches Ok(Some(d)) ==> d@.wf(text@.len()) && ends_at_line_ends(d@.mappings, text@),
{
    let mut b = Builder { nodes: Vec::new(), stack: Vec::new(), last_end: 0 };
    assert(mappings_view(b.nodes@) =~= Seq::<MappingView>::empty());
    assert(stack_view(b.stack@) =~= Seq::<FrameView>::empty());
    assert(b@ == initial());
    let mut i: usize = 0;
    while i < items.len()
        invariant
            i <= items@.len(),
            read_events(text@, crate::yaml::items_view(items@), i as nat) == running(b@),
            state_wf(b@, text@),
        decreases items@.len() - i,
    {
        let ghost prev = b@;
        let done: Option<Result<Option<usize>, ParseError>> = match &items[i] {
            Err(e) => Some(Err(ParseError::Scan(e.clone()))),
            Ok(YamlItem::BlockMapping(col)) => {
                proof {
                    lemma_begin_value_wf(stack_view(b.stack@), b@.nodes.len());
                }
                begin_value_exec(&mut b.stack);
                assert(entries_view(Seq::<MapEntry>::empty()) =~= Seq::<EntryView>::empty());
                b.stack.push(
                    Frame::Mapping {
                        extendable: true,
                        indent: *col,
                        entries: Vec::new(),
                        key_end: None,
                    },
                );
                assert(stack_view(b.stack@) =~= step(text@, prev, crate::yaml::items_view(items@)[i as int]).state.stack);
                None
            },
            Ok(YamlItem::FlowMapping) => {
                proof {
                    lemma_begin_value_wf(stack_view(b.stack@), b@.nodes.len());
                }
                begin_value_exec(&mut b.stack);
                assert(entries_view(Seq::<MapEntry>::empty()) =~= Seq::<EntryView>::empty());
                b.stack.push(
                    Frame::Mapping {
                        extendable: false,
                        indent: 0,
                        entries: Vec::new(),
                        key_end: None,
                    },
                );
                assert(stack_view(b.stack@) =~= step(text@, prev, crate::yaml::items_view(items@)[i as int]).state.stack);
                None
            },
            Ok(YamlItem::SequenceStart) => {
                proof {
                    lemma_begin_value_wf(stack_view(b.stack@), b@.nodes.len());
                }
                begin_value_exec(&mut b.stack);
                b.stack.push(Frame::Sequence);
                assert(stack_view(b.stack@) =~= step(text@, prev, crate::yaml::items_view(items@)[i as int]).state.stack);
                None
            },
            Ok(YamlItem::Scalar { value, plain, start, end }) => {
                b.scalar(value, *plain, *start, *end);
                proof {
                    let st = b@;
                    assert forall|k: int| 0 <= k < st.stack.len() implies frame_children_below(
                        #[trigger] st.stack[k],
                        st.nodes.len(),
                    ) by {
                        if k < st.stack.len() - 1 {
                            assert(st.stack[k] == prev.stack[k]);
                        } else {
                            assert(frame_children_below(prev.stack[k], prev.nodes.len()));
                            match prev.stack[k] {
                                FrameView::Mapping { entries, .. } => {
                                    let es = set_last_end(entries, *start as nat);
                                    assert forall|j: int| 0 <= j < es.len() implies ((
                                    #[trigger] es[j]).mapping matches Some(c) ==> c
                                        < prev.nodes.len()) by {
                                        if j < entries.len() - 1 {
                                            assert(es[j] == entries[j]);
                                        } else {
                                            assert(entries[j].mapping == es[j].mapping);
                                        }
                                    }
                                },
                                _ => {},
                            }
                        }
                    }
                }
                None
            },
            Ok(YamlItem::Alias(end)) => {
                proof {
                    lemma_begin_value_wf(stack_view(b.stack@), b@.nodes.len());
                    lemma_end_value_wf(begin_value(stack_view(b.stack@)), None, b@.nodes.len());
                }
                begin_value_exec(&mut b.stack);
                end_value_exec(&mut b.stack, None);
                b.last_end = *end;
                None
            },
            Ok(YamlItem::MappingEnd(start)) => b.mapping_end(text, *start),
            Ok(YamlItem::SequenceEnd) => b.sequence_end(Ghost(text@)),
            Ok(YamlItem::Other) => None,
        };
        assert(read_events(text@, crate::yaml::items_view(items@), (i + 1) as nat) == progress_of(b@, done));
        match done {
            None => {},
            Some(Err(e)) => {
                proof {
                    lemma_read_events_stops(text@, crate::yaml::items_view(items@), (i + 1) as nat, crate::yaml::items_view(items@).len());
                }
                return Err(e);
            },
            Some(Ok(None)) => {
                proof {
                    lemma_read_events_stops(text@, crate::yaml::items_view(items@), (i + 1) as nat, crate::yaml::items_view(items@).len());
                }
                return Ok(None);
            },
            Some(Ok(Some(root))) => {
                proof {
                    lemma_read_events_stops(text@, crate::yaml::items_view(items@), (i + 1) as nat, crate::yaml::items_view(items@).len());
                }
                return Ok(Some(Document { mappings: b.nodes, root }));
            },
        }
        i = i + 1;
    }
    Ok(None)
}
} // verus!

verus! {

/// Parses `text` and reads its document: its recorded block mappings, when its root
/// is a block mapping.
pub fn parse(text: &str) -> (r: Result<Option<Document>, ParseError>)
    ensures
        document_result_view(r) == document_of(text@, crate::yaml::yaml_events(text@)),
        r matches Ok(Some(d)) ==> d@.wf(text@.len()) && ends_at_line_ends(d@.mappings, text@),
{
    let items = crate::yaml::scan_yaml(text);
    let chars = crate::text::chars_of(text);
    read_document(&chars, &items)
}

} // verus!
