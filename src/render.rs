//! The renderer: a depth-first walk of a markup tree that threads an open-tag
//! stack, a list depth and an in-progress line through the tree and produces
//! styled terminal lines.
//!
//! The walk is stated as a state machine over the walk's events (entering an
//! element, a text run, leaving an element): `after_events` folds `after_event`
//! over them from `initial_state`, and `rendered` flushes the last line and
//! drops the lines that hold no text, keeping the blank spacer lines.
use vstd::prelude::*;
use crate::markup::{is_block, is_list, is_spaced, tag_of, MarkupEvent, Node, Tag};
use crate::markup::{classify_tag, is_block_tag, is_spaced_tag};
use crate::style::{is_whitespace_preserved, plain_style, preserves, resolve_style, style_of, Color, Style};
use crate::text::{chars_of, collapse_chars, collapse_whitespace, string_from_chars};

verus! {

/// A run of text with uniform attributes.
#[derive(Debug, PartialEq, Eq)]
pub struct StyledSegment {
    pub text: String,
    pub bold: bool,
    pub italic: bool,
    pub underline: bool,
    pub color: Option<Color>,
}

/// What a segment holds: its characters and its attributes.
pub struct SegmentView {
    pub text: Seq<char>,
    pub style: Style,
}

impl View for StyledSegment {
    type V = SegmentView;

    open spec fn view(&self) -> SegmentView {
        SegmentView {
            text: self.text@,
            style: Style {
                bold: self.bold,
                italic: self.italic,
                underline: self.underline,
                color: self.color,
            },
        }
    }
}

/// One output line. A spacer is a blank line put in on purpose after a block;
/// it holds no segment.
#[derive(Debug, PartialEq, Eq)]
pub struct Line {
    pub segments: Vec<StyledSegment>,
    pub spacer: bool,
}

/// What a line holds.
pub struct LineView {
    pub segments: Seq<SegmentView>,
    pub spacer: bool,
}

pub open spec fn segments_view(s: Seq<StyledSegment>) -> Seq<SegmentView> {
    s.map_values(|x: StyledSegment| x@)
}

impl View for Line {
    type V = LineView;

    open spec fn view(&self) -> LineView {
        LineView { segments: segments_view(self.segments@), spacer: self.spacer }
    }
}

pub open spec fn lines_view(s: Seq<Line>) -> Seq<LineView> {
    s.map_values(|l: Line| l@)
}

/// The renderer's registers: the open tags (outermost first), the list depth,
/// the line being built and the lines emitted so far.
pub struct RenderState {
    pub tags: Seq<Tag>,
    pub depth: nat,
    pub line: Seq<SegmentView>,
    pub lines: Seq<LineView>,
}

pub open spec fn initial_state() -> RenderState {
    RenderState { tags: Seq::empty(), depth: 0, line: Seq::empty(), lines: Seq::empty() }
}

/// Ends the line being built, if it holds a segment.
pub open spec fn flushed(st: RenderState) -> RenderState {
    if st.line.len() > 0 {
        RenderState {
            line: Seq::empty(),
            lines: st.lines.push(LineView { segments: st.line, spacer: false }),
            ..st
        }
    } else {
        st
    }
}

pub open spec fn spacer_line() -> LineView {
    LineView { segments: Seq::empty(), spacer: true }
}

/// Two spaces per level of list depth.
pub open spec fn indent(d: nat) -> Seq<char>
    decreases d,
{
    if d == 0 {
        Seq::empty()
    } else {
        indent((d - 1) as nat) + seq![' ', ' ']
    }
}

/// The prefix of a list item at list depth `d`.
pub open spec fn bullet(d: nat) -> Seq<char> {
    indent(d) + seq!['•', ' ']
}

pub open spec fn with_segment(st: RenderState, text: Seq<char>, style: Style) -> RenderState {
    RenderState { line: st.line.push(SegmentView { text, style }), ..st }
}

/// Entering an element with tag `t`.
pub open spec fn entered(st: RenderState, t: Tag) -> RenderState {
    let s1 = if is_block(t) { flushed(st) } else { st };
    let s2 = if is_list(t) { RenderState { depth: s1.depth + 1, ..s1 } } else { s1 };
    let s3 = if t == Tag::Li { with_segment(s2, bullet(s2.depth), plain_style()) } else { s2 };
    RenderState { tags: s3.tags.push(t), ..s3 }
}

/// Leaving the innermost open element; nothing happens when none is open.
pub open spec fn exited(st: RenderState) -> RenderState {
    if st.tags.len() == 0 {
        st
    } else {
        let t = st.tags.last();
        let s1 = RenderState { tags: st.tags.drop_last(), ..st };
        let s2 = if is_list(t) {
            RenderState { depth: if s1.depth > 0 { (s1.depth - 1) as nat } else { 0 }, ..s1 }
        } else {
            s1
        };
        let s3 = if is_block(t) {
            let f = flushed(s2);
            if is_spaced(t) { RenderState { lines: f.lines.push(spacer_line()), ..f } } else { f }
        } else {
            s2
        };
        if t == Tag::Br { flushed(s3) } else { s3 }
    }
}

/// The pieces of `s` between newlines, as `split('\n')` gives them: one more
/// piece than there are newlines.
pub open spec fn pieces(s: Seq<char>) -> Seq<Seq<char>>
    decreases s.len(),
{
    if s.len() == 0 {
        seq![Seq::empty()]
    } else {
        let p = pieces(s.drop_last());
        if s.last() == '\n' {
            p.push(Seq::empty())
        } else {
            p.update(p.len() - 1, p.last().push(s.last()))
        }
    }
}

/// A piece of preserved text appended as a segment, unless it is empty.
pub open spec fn with_piece(st: RenderState, piece: Seq<char>, style: Style) -> RenderState {
    if piece.len() > 0 {
        with_segment(st, piece, style)
    } else {
        st
    }
}

/// Each piece of `ps` appended to the line being built, followed by the end
/// of that line: the pieces that precede a newline.
pub open spec fn with_lines(st: RenderState, ps: Seq<Seq<char>>, style: Style) -> RenderState
    decreases ps.len(),
{
    if ps.len() == 0 {
        st
    } else {
        flushed(with_piece(with_lines(st, ps.drop_last(), style), ps.last(), style))
    }
}

/// A text run. Where whitespace is preserved, the text is kept verbatim and
/// each embedded newline ends the line being built; the piece after the last
/// newline stays on the line, where what follows continues it. Elsewhere
/// whitespace runs collapse to one space, an empty result adds nothing, and a
/// lone space adds nothing at the start of a line.
pub open spec fn with_text(st: RenderState, content: Seq<char>) -> RenderState {
    let style = style_of(st.tags);
    if preserves(st.tags) {
        let ps = pieces(content);
        with_piece(with_lines(st, ps.drop_last(), style), ps.last(), style)
    } else {
        let n = collapse_whitespace(content);
        if n.len() == 0 || (st.line.len() == 0 && n == seq![' ']) {
            st
        } else {
            with_segment(st, n, style)
        }
    }
}

pub open spec fn after_event(st: RenderState, ev: MarkupEvent) -> RenderState {
    match ev {
        MarkupEvent::Open(name) => entered(st, tag_of(name@)),
        MarkupEvent::Close => exited(st),
        MarkupEvent::Text(content) => with_text(st, content@),
        MarkupEvent::Other => st,
    }
}

pub open spec fn after_events(evs: Seq<MarkupEvent>) -> RenderState
    decreases evs.len(),
{
    if evs.len() == 0 {
        initial_state()
    } else {
        after_event(after_events(evs.drop_last()), evs.last())
    }
}

/// A line is shown if it is a spacer or holds some non-empty text.
pub open spec fn is_visible(l: LineView) -> bool {
    l.spacer || exists|i: int| 0 <= i < l.segments.len() && (#[trigger] l.segments[i]).text.len() > 0
}

pub open spec fn visible_lines(ls: Seq<LineView>) -> Seq<LineView>
    decreases ls.len(),
{
    if ls.len() == 0 {
        Seq::empty()
    } else if is_visible(ls.last()) {
        visible_lines(ls.drop_last()).push(ls.last())
    } else {
        visible_lines(ls.drop_last())
    }
}

/// The events of a depth-first walk of `n`: entering an element, its
/// children in order, leaving it.
pub open spec fn flatten(n: Node) -> Seq<MarkupEvent>
    decreases n,
{
    match n {
        Node::Element { tag, children } => seq![MarkupEvent::Open(tag)] + flatten_all(children@)
            + seq![MarkupEvent::Close],
        Node::Text { content } => seq![MarkupEvent::Text(content)],
    }
}

/// The walks of `ns`, one after the other.
pub open spec fn flatten_all(ns: Seq<Node>) -> Seq<MarkupEvent>
    decreases ns,
{
    if ns.len() == 0 {
        Seq::empty()
    } else {
        flatten_all(ns.drop_last()) + flatten(ns.last())
    }
}

/// Every line kept is shown.
pub proof fn lemma_visible_lines_shown(ls: Seq<LineView>)
    ensures
        forall|i: int| 0 <= i < visible_lines(ls).len() ==> is_visible(#[trigger] visible_lines(ls)[i]),
    decreases ls.len(),
{
    if ls.len() > 0 {
        lemma_visible_lines_shown(ls.drop_last());
        let v = visible_lines(ls.drop_last());
        if is_visible(ls.last()) {
            assert forall|i: int| 0 <= i < v.push(ls.last()).len() implies is_visible(
                #[trigger] v.push(ls.last())[i],
            ) by {
                if i < v.len() {
                    assert(v.push(ls.last())[i] == v[i]);
                }
            }
        }
    }
}

/// The lines rendered from a walk's events.
pub open spec fn rendered(evs: Seq<MarkupEvent>) -> Seq<LineView> {
    visible_lines(flushed(after_events(evs)).lines)
}

/// There is always at least one piece.
pub proof fn lemma_pieces_len(s: Seq<char>)
    ensures
        pieces(s).len() >= 1,
    decreases s.len(),
{
    if s.len() > 0 {
        lemma_pieces_len(s.drop_last());
    }
}

/// With preserved whitespace, text never changes the list depth.
proof fn lemma_with_lines_depth(st: RenderState, ps: Seq<Seq<char>>, style: Style)
    ensures
        with_lines(st, ps, style).depth == st.depth,
    decreases ps.len(),
{
    if ps.len() > 0 {
        lemma_with_lines_depth(st, ps.drop_last(), style);
    }
}

/// An event deepens the list depth by one at most.
proof fn lemma_event_depth(st: RenderState, ev: MarkupEvent)
    ensures
        after_event(st, ev).depth <= st.depth + 1,
{
    match ev {
        MarkupEvent::Text(content) => {
            lemma_with_lines_depth(st, pieces(content@).drop_last(), style_of(st.tags));
        },
        _ => {},
    }
}

/// The renderer's registers while it walks a tree.
struct Renderer {
    tag_stack: Vec<Tag>,
    list_depth: usize,
    current_line: Vec<StyledSegment>,
    lines: Vec<Line>,
}

impl View for Renderer {
    type V = RenderState;

    closed spec fn view(&self) -> RenderState {
        RenderState {
            tags: self.tag_stack@,
            depth: self.list_depth as nat,
            line: segments_view(self.current_line@),
            lines: lines_view(self.lines@),
        }
    }
}

/// A segment holding `text` with attributes `style`.
fn styled_segment(text: String, style: Style) -> (r: StyledSegment)
    ensures
        r@ == (SegmentView { text: text@, style }),
{
    StyledSegment {
        text,
        bold: style.bold,
        italic: style.italic,
        underline: style.underline,
        color: style.color,
    }
}

/// The characters of a list item's prefix at list depth `depth`.
fn bullet_chars(depth: usize) -> (r: Vec<char>)
    ensures
        r@ == bullet(depth as nat),
{
    let mut out: Vec<char> = Vec::new();
    let mut i: usize = 0;
    while i < depth
        invariant
            i <= depth,
            out@ == indent(i as nat),
        decreases depth - i,
    {
        out.push(' ');
        out.push(' ');
        i = i + 1;
    }
    out.push('•');
    out.push(' ');
    out
}

impl Renderer {
    fn new() -> (r: Renderer)
        ensures
            r@ == initial_state(),
    {
        let r = Renderer {
            tag_stack: Vec::new(),
            list_depth: 0,
            current_line: Vec::new(),
            lines: Vec::new(),
        };
        assert(r@.line =~= Seq::<SegmentView>::empty());
        assert(r@.lines =~= Seq::<LineView>::empty());
        r
    }

    /// Appends a segment to the line being built.
    fn push_segment(&mut self, seg: StyledSegment)
        ensures
            final(self)@ == (RenderState { line: old(self)@.line.push(seg@), ..old(self)@ }),
    {
        self.current_line.push(seg);
        assert(segments_view(self.current_line@) =~= segments_view(old(self).current_line@).push(seg@));
    }

    /// Ends the line being built, if it holds a segment.
    fn flush_current_line(&mut self)
        ensures
            final(self)@ == flushed(old(self)@),
    {
        if self.current_line.len() > 0 {
            let mut segments: Vec<StyledSegment> = Vec::new();
            std::mem::swap(&mut segments, &mut self.current_line);
            let line = Line { segments, spacer: false };
            self.lines.push(line);
            assert(lines_view(self.lines@) =~= lines_view(old(self).lines@).push(line@));
            assert(segments_view(self.current_line@) =~= Seq::<SegmentView>::empty());
        }
    }

    /// Appends a blank spacer line.
    fn push_spacer(&mut self)
        ensures
            final(self)@ == (RenderState { lines: old(self)@.lines.push(spacer_line()), ..old(self)@ }),
    {
        let line = Line { segments: Vec::new(), spacer: true };
        self.lines.push(line);
        assert(line@.segments =~= Seq::<SegmentView>::empty());
        assert(lines_view(self.lines@) =~= lines_view(old(self).lines@).push(line@));
    }

    /// Puts the prefix of a list item on the line being built.
    fn add_list_prefix(&mut self)
        ensures
            final(self)@ == with_segment(old(self)@, bullet(old(self)@.depth), plain_style()),
    {
        let chars = bullet_chars(self.list_depth);
        let text = string_from_chars(&chars);
        let seg = styled_segment(text, Style { bold: false, italic: false, underline: false, color: None });
        self.push_segment(seg);
    }

    /// Before the children of an element: a block starts a fresh line.
    fn handle_block_opening(&mut self, t: Tag)
        ensures
            final(self)@ == (if is_block(t) { flushed(old(self)@) } else { old(self)@ }),
    {
        if is_block_tag(t) {
            self.flush_current_line();
        }
    }

    /// After the children of an element: a block ends its line, and some
    /// blocks are followed by a spacer.
    fn handle_block_closing(&mut self, t: Tag)
        ensures
            final(self)@ == (if is_block(t) {
                if is_spaced(t) {
                    RenderState { lines: flushed(old(self)@).lines.push(spacer_line()), ..flushed(old(self)@) }
                } else {
                    flushed(old(self)@)
                }
            } else {
                old(self)@
            }),
    {
        if is_block_tag(t) {
            self.flush_current_line();
            if is_spaced_tag(t) {
                self.push_spacer();
            }
        }
    }

    /// Entering an element named `name`.
    fn enter_element(&mut self, name: &str)
        requires
            old(self).list_depth < usize::MAX,
        ensures
            final(self)@ == entered(old(self)@, tag_of(name@)),
    {
        let t = classify_tag(name);
        self.handle_block_opening(t);
        if t == Tag::Ul || t == Tag::Ol {
            self.list_depth = self.list_depth + 1;
        }
        if t == Tag::Li {
            self.add_list_prefix();
        }
        self.tag_stack.push(t);
    }

    /// A text run inside the open tags.
    fn process_text_node(&mut self, text: &str)
        ensures
            final(self)@ == with_text(old(self)@, text@),
    {
        let style = resolve_style(&self.tag_stack);
        let cs = chars_of(text);
        if is_whitespace_preserved(&self.tag_stack) {
            let ghost st0 = self@;
            let mut cur: Vec<char> = Vec::new();
            let mut i: usize = 0;
            proof {
                assert(cs@.take(0) =~= Seq::<char>::empty());
                assert(pieces(cs@.take(0)).drop_last() =~= Seq::<Seq<char>>::empty());
            }
            while i < cs.len()
                invariant
                    cs@ == text@,
                    i <= cs.len(),
                    style == style_of(st0.tags),
                    pieces(cs@.take(i as int)).len() >= 1,
                    self@ == with_lines(st0, pieces(cs@.take(i as int)).drop_last(), style),
                    cur@ == pieces(cs@.take(i as int)).last(),
                decreases cs.len() - i,
            {
                let c = cs[i];
                let ghost prev = cs@.take(i as int);
                let ghost next = cs@.take(i as int + 1);
                proof {
                    assert(next.drop_last() =~= prev);
                    assert(next.last() == c);
                    lemma_pieces_len(next);
                }
                if c == '\n' {
                    if cur.len() > 0 {
                        let seg = styled_segment(string_from_chars(&cur), style);
                        self.push_segment(seg);
                    }
                    self.flush_current_line();
                    cur = Vec::new();
                    proof {
                        assert(pieces(next).drop_last() =~= pieces(prev));
                        assert(cur@ =~= pieces(next).last());
                    }
                } else {
                    cur.push(c);
                    proof {
                        let p = pieces(prev);
                        assert(pieces(next).drop_last() =~= p.drop_last());
                    }
                }
                i = i + 1;
            }
            proof {
                assert(cs@.take(cs.len() as int) =~= text@);
            }
            if cur.len() > 0 {
                let seg = styled_segment(string_from_chars(&cur), style);
                self.push_segment(seg);
            }
        } else {
            let collapsed = collapse_chars(&cs);
            let lone_space = collapsed.len() == 1 && collapsed[0] == ' ';
            proof {
                if collapsed.len() == 1 && collapsed[0] == ' ' {
                    assert(collapsed@ =~= seq![' ']);
                }
            }
            if collapsed.len() == 0 || (self.current_line.len() == 0 && lone_space) {
            } else {
                let seg = styled_segment(string_from_chars(&collapsed), style);
                self.push_segment(seg);
            }
        }
    }

    /// Leaving the innermost open element.
    fn exit_element(&mut self)
        ensures
            final(self)@ == exited(old(self)@),
    {
        match self.tag_stack.pop() {
            None => {},
            Some(t) => {
                if t == Tag::Ul || t == Tag::Ol {
                    self.list_depth = self.list_depth.saturating_sub(1);
                }
                self.handle_block_closing(t);
                if t == Tag::Br {
                    self.flush_current_line();
                }
            },
        }
    }
}

/// Appends to `out` the events of a depth-first walk of `node`.
fn walk(node: &Node, out: &mut Vec<MarkupEvent>)
    ensures
        final(out)@ == old(out)@ + flatten(*node),
    decreases node,
{
    match node {
        Node::Element { tag, children } => {
            out.push(MarkupEvent::Open(tag.clone()));
            let ghost start = out@;
            let mut i: usize = 0;
            while i < children.len()
                invariant
                    node is Element,
                    *children == node->children,
                    i <= children.len(),
                    out@ == start + flatten_all(children@.take(i as int)),
                decreases children.len() - i,
            {
                assert(children@.take(i as int + 1).drop_last() =~= children@.take(i as int));
                proof {
                    vstd::std_specs::vec::axiom_vec_index_decreases(*children, i as int);
                }
                walk(&children[i], out);
                i = i + 1;
            }
            assert(children@.take(children.len() as int) =~= children@);
            out.push(MarkupEvent::Close);
            assert(out@ =~= old(out)@ + flatten(*node));
        },
        Node::Text { content } => {
            out.push(MarkupEvent::Text(content.clone()));
            assert(out@ =~= old(out)@ + flatten(*node));
        },
    }
}

/// The events of a depth-first walk of `root`.
pub fn events_of(root: &Node) -> (r: Vec<MarkupEvent>)
    ensures
        r@ == flatten(*root),
{
    let mut out: Vec<MarkupEvent> = Vec::new();
    walk(root, &mut out);
    assert(out@ =~= flatten(*root));
    out
}

/// The styled lines of the markup tree `root`.
pub fn render(root: &Node) -> (r: Vec<Line>)
    ensures
        lines_view(r@) == rendered(flatten(*root)),
        forall|i: int| 0 <= i < r@.len() ==> is_visible(#[trigger] r@[i]@),
{
    let events = events_of(root);
    render_events(&events)
}

/// Whether a line is shown: a spacer, or a line with some non-empty text.
fn is_visible_line(l: &Line) -> (r: bool)
    ensures
        r == is_visible(l@),
{
    if l.spacer {
        return true;
    }
    let mut k: usize = 0;
    while k < l.segments.len()
        invariant
            k <= l.segments.len(),
            forall|j: int| 0 <= j < k ==> (#[trigger] l@.segments[j]).text.len() == 0,
        decreases l.segments.len() - k,
    {
        if !l.segments[k].text.as_str().is_empty() {
            assert(l@.segments[k as int] == l.segments@[k as int]@);
            return true;
        }
        assert(l@.segments[k as int] == l.segments@[k as int]@);
        k = k + 1;
    }
    false
}

/// The lines of a walk's events, the last line ended, the lines without any
/// text dropped (spacers are kept).
pub fn render_events(events: &Vec<MarkupEvent>) -> (r: Vec<Line>)
    ensures
        lines_view(r@) == rendered(events@),
        forall|i: int| 0 <= i < r@.len() ==> is_visible(#[trigger] r@[i]@),
{
    let mut rd = Renderer::new();
    let mut i: usize = 0;
    while i < events.len()
        invariant
            i <= events.len(),
            rd@ == after_events(events@.take(i as int)),
            rd@.depth <= i,
        decreases events.len() - i,
    {
        proof {
            assert(events@.take(i as int + 1).drop_last() =~= events@.take(i as int));
            lemma_event_depth(rd@, events@[i as int]);
        }
        match &events[i] {
            MarkupEvent::Open(name) => rd.enter_element(name.as_str()),
            MarkupEvent::Close => rd.exit_element(),
            MarkupEvent::Text(content) => rd.process_text_node(content.as_str()),
            MarkupEvent::Other => {},
        }
        i = i + 1;
    }
    assert(events@.take(events.len() as int) =~= events@);
    rd.flush_current_line();
    let ghost all = rd@.lines;
    let mut kept: Vec<Line> = Vec::new();
    let ghost src = rd.lines@;
    for line in it: rd.lines.into_iter()
        invariant
            it.seq() == src,
            lines_view(src) == all,
            lines_view(kept@) == visible_lines(all.take(it.index() as int)),
    {
        let ghost j = it.index() as int;
        proof {
            assert(all.take(j + 1).drop_last() =~= all.take(j));
            assert(line == src[j]);
        }
        if is_visible_line(&line) {
            kept.push(line);
            assert(lines_view(kept@) =~= visible_lines(all.take(j)).push(all[j]));
        }
    }
    assert(all.take(all.len() as int) =~= all);
    proof {
        lemma_visible_lines_shown(all);
        assert forall|i: int| 0 <= i < kept@.len() implies is_visible(#[trigger] kept@[i]@) by {
            assert(lines_view(kept@)[i] == kept@[i]@);
        }
    }
    kept
}

} // verus!
