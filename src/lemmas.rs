//! Facts about the renderer as a whole, proved from its state machine.
use vstd::prelude::*;
use crate::markup::{is_block, is_list, is_spaced, tag_of, MarkupEvent, Node, Tag};
use crate::render::{
    after_event, after_events, bullet, entered, indent, exited, flatten, flushed, is_visible, lemma_pieces_len,
    pieces, rendered, spacer_line, visible_lines, with_lines, with_piece, with_segment, LineView, RenderState,
    SegmentView,
};
use crate::style::{plain_style, preserves, style_of, Color, Style};
use crate::text::{collapse_whitespace, is_ws};

verus! {

/// Rendering is a function of the tree: equal trees render to equal lines.
pub proof fn lemma_render_deterministic(a: Node, b: Node)
    requires
        a == b,
    ensures
        rendered(flatten(a)) == rendered(flatten(b)),
{
}

/// Text inside a link is underlined and blue, whatever tags enclose the link.
pub proof fn lemma_link_style(outer: Seq<Tag>)
    ensures
        style_of(outer.push(Tag::A)).underline,
        style_of(outer.push(Tag::A)).color == Some(Color::Blue),
{
    assert(outer.push(Tag::A).drop_last() =~= outer);
}

/// Tags that give their text a colour.
pub open spec fn sets_color(t: Tag) -> bool {
    match t {
        Tag::Pre | Tag::Code | Tag::H1 | Tag::H2 | Tag::H3 | Tag::H4 | Tag::H5 | Tag::H6
        | Tag::A => true,
        _ => false,
    }
}

/// Text inside a link is underlined and blue whatever tags enclose the link,
/// and whatever tags without a colour of their own (bold, italic, a block)
/// lie between the link and the text.
pub proof fn lemma_link_style_within(outer: Seq<Tag>, inner: Seq<Tag>)
    requires
        forall|i: int| 0 <= i < inner.len() ==> !sets_color(#[trigger] inner[i]),
    ensures
        style_of(outer.push(Tag::A) + inner).underline,
        style_of(outer.push(Tag::A) + inner).color == Some(Color::Blue),
    decreases inner.len(),
{
    let x = outer.push(Tag::A);
    if inner.len() == 0 {
        lemma_link_style(outer);
        assert(x + inner =~= x);
    } else {
        let p = inner.drop_last();
        assert forall|i: int| 0 <= i < p.len() implies !sets_color(#[trigger] p[i]) by {
            assert(p[i] == inner[i]);
        }
        lemma_link_style_within(outer, p);
        assert((x + inner).drop_last() =~= x + p);
        assert((x + inner).last() == inner[inner.len() - 1]);
    }
}

/// Attributes accumulate: bold, italic and underline set by enclosing tags
/// stay set whatever tags are opened inside them.
pub proof fn lemma_style_cumulative(outer: Seq<Tag>, inner: Seq<Tag>)
    ensures
        style_of(outer).bold ==> style_of(outer + inner).bold,
        style_of(outer).italic ==> style_of(outer + inner).italic,
        style_of(outer).underline ==> style_of(outer + inner).underline,
    decreases inner.len(),
{
    if inner.len() == 0 {
        assert(outer + inner =~= outer);
    } else {
        lemma_style_cumulative(outer, inner.drop_last());
        assert((outer + inner).drop_last() =~= outer + inner.drop_last());
    }
}

/// No event is a text run, and no element is a list item or a block followed
/// by a spacer.
pub open spec fn without_content(evs: Seq<MarkupEvent>) -> bool {
    forall|i: int|
        0 <= i < evs.len() ==> match #[trigger] evs[i] {
            MarkupEvent::Text(_) => false,
            MarkupEvent::Open(name) => tag_of(name@) != Tag::Li && !is_spaced(tag_of(name@)),
            _ => true,
        }
}

proof fn lemma_empty_state(evs: Seq<MarkupEvent>)
    requires
        without_content(evs),
    ensures
        after_events(evs).line.len() == 0,
        after_events(evs).lines.len() == 0,
        forall|k: int|
            0 <= k < after_events(evs).tags.len() ==> {
                let t = #[trigger] after_events(evs).tags[k];
                t != Tag::Li && !is_spaced(t)
            },
    decreases evs.len(),
{
    if evs.len() > 0 {
        let p = evs.drop_last();
        assert forall|i: int| 0 <= i < p.len() implies match #[trigger] p[i] {
            MarkupEvent::Text(_) => false,
            MarkupEvent::Open(name) => tag_of(name@) != Tag::Li && !is_spaced(tag_of(name@)),
            _ => true,
        } by {
            assert(p[i] == evs[i]);
        }
        lemma_empty_state(p);
        let last = evs[evs.len() - 1];
        assert(last == evs.last());
        let st = after_events(p);
        match last {
            MarkupEvent::Open(name) => {
                let t = tag_of(name@);
                let e = entered(st, t);
                assert forall|k: int| 0 <= k < e.tags.len() implies {
                    let u = #[trigger] e.tags[k];
                    u != Tag::Li && !is_spaced(u)
                } by {
                    if k < st.tags.len() {
                        assert(e.tags[k] == st.tags[k]);
                    }
                }
            },
            MarkupEvent::Close => {
                if st.tags.len() > 0 {
                    let t = st.tags.last();
                    assert(st.tags[st.tags.len() - 1] == t);
                    let e = exited(st);
                    assert forall|k: int| 0 <= k < e.tags.len() implies {
                        let u = #[trigger] e.tags[k];
                        u != Tag::Li && !is_spaced(u)
                    } by {
                        assert(e.tags[k] == st.tags[k]);
                    }
                }
            },
            _ => {},
        }
    }
}

/// A tree without text, list items or spaced blocks renders to no line at all.
pub proof fn lemma_no_text_no_lines(root: Node)
    requires
        without_content(flatten(root)),
    ensures
        rendered(flatten(root)).len() == 0,
{
    lemma_empty_state(flatten(root));
}

/// The characters of `s` that are not whitespace, in order.
pub open spec fn non_ws(s: Seq<char>) -> Seq<char>
    decreases s.len(),
{
    if s.len() == 0 {
        Seq::empty()
    } else if is_ws(s.last()) {
        non_ws(s.drop_last())
    } else {
        non_ws(s.drop_last()).push(s.last())
    }
}

/// The text of segments, one after the other.
pub open spec fn segments_text(segs: Seq<SegmentView>) -> Seq<char>
    decreases segs.len(),
{
    if segs.len() == 0 {
        Seq::empty()
    } else {
        segments_text(segs.drop_last()) + segs.last().text
    }
}

/// The text of lines, one after the other.
pub open spec fn lines_text(ls: Seq<LineView>) -> Seq<char>
    decreases ls.len(),
{
    if ls.len() == 0 {
        Seq::empty()
    } else {
        lines_text(ls.drop_last()) + segments_text(ls.last().segments)
    }
}

/// The text runs of a walk, one after the other.
pub open spec fn events_text(evs: Seq<MarkupEvent>) -> Seq<char>
    decreases evs.len(),
{
    if evs.len() == 0 {
        Seq::empty()
    } else {
        events_text(evs.drop_last()) + match evs.last() {
            MarkupEvent::Text(content) => content@,
            _ => Seq::empty(),
        }
    }
}

/// No element of the walk is a list item.
pub open spec fn without_list_items(evs: Seq<MarkupEvent>) -> bool {
    forall|i: int|
        0 <= i < evs.len() ==> match #[trigger] evs[i] {
            MarkupEvent::Open(name) => tag_of(name@) != Tag::Li,
            _ => true,
        }
}

/// Pieces joined back together, without the newlines between them.
pub open spec fn joined(ps: Seq<Seq<char>>) -> Seq<char>
    decreases ps.len(),
{
    if ps.len() == 0 {
        Seq::empty()
    } else {
        joined(ps.drop_last()) + ps.last()
    }
}

/// All the text a render state holds: its lines, then the line being built.
pub open spec fn state_text(st: RenderState) -> Seq<char> {
    lines_text(st.lines) + segments_text(st.line)
}

proof fn lemma_non_ws_append(a: Seq<char>, b: Seq<char>)
    ensures
        non_ws(a + b) == non_ws(a) + non_ws(b),
    decreases b.len(),
{
    if b.len() == 0 {
        assert(a + b =~= a);
        assert(non_ws(a) + non_ws(b) =~= non_ws(a));
    } else {
        lemma_non_ws_append(a, b.drop_last());
        assert((a + b).drop_last() =~= a + b.drop_last());
        assert((a + b).last() == b.last());
        if !is_ws(b.last()) {
            assert(non_ws(a) + non_ws(b) =~= (non_ws(a) + non_ws(b.drop_last())).push(b.last()));
        }
    }
}

proof fn lemma_flushed_text(st: RenderState)
    ensures
        state_text(flushed(st)) == state_text(st),
{
    if st.line.len() > 0 {
        let f = flushed(st);
        assert(f.lines.drop_last() =~= st.lines);
        assert(segments_text(f.line) =~= Seq::<char>::empty());
        assert(state_text(f) =~= state_text(st));
    }
}

proof fn lemma_segment_text(st: RenderState, text: Seq<char>, style: Style)
    ensures
        state_text(with_segment(st, text, style)) == state_text(st) + text,
{
    let w = with_segment(st, text, style);
    assert(w.line.drop_last() =~= st.line);
    assert(state_text(w) =~= state_text(st) + text);
}

proof fn lemma_piece_text(st: RenderState, piece: Seq<char>, style: Style)
    ensures
        state_text(with_piece(st, piece, style)) == state_text(st) + piece,
{
    if piece.len() > 0 {
        lemma_segment_text(st, piece, style);
    } else {
        assert(state_text(st) + piece =~= state_text(st));
    }
}

proof fn lemma_with_lines_text(st: RenderState, ps: Seq<Seq<char>>, style: Style)
    ensures
        state_text(with_lines(st, ps, style)) == state_text(st) + joined(ps),
    decreases ps.len(),
{
    if ps.len() == 0 {
        assert(state_text(st) + joined(ps) =~= state_text(st));
    } else {
        lemma_with_lines_text(st, ps.drop_last(), style);
        let w = with_lines(st, ps.drop_last(), style);
        lemma_piece_text(w, ps.last(), style);
        lemma_flushed_text(with_piece(w, ps.last(), style));
        assert(state_text(st) + joined(ps) =~= state_text(st) + joined(ps.drop_last()) + ps.last());
    }
}

proof fn lemma_pieces_text(s: Seq<char>)
    ensures
        non_ws(joined(pieces(s))) == non_ws(s),
    decreases s.len(),
{
    if s.len() > 0 {
        let p = pieces(s.drop_last());
        lemma_pieces_text(s.drop_last());
        lemma_pieces_len(s.drop_last());
        if s.last() == '\n' {
            assert(pieces(s).drop_last() =~= p);
            assert(joined(pieces(s)) =~= joined(p));
        } else {
            let q = pieces(s);
            assert(q.drop_last() =~= p.drop_last());
            assert(joined(q) =~= joined(p.drop_last()) + p.last().push(s.last()));
            assert(joined(p) =~= joined(p.drop_last()) + p.last());
            assert(joined(q) =~= joined(p).push(s.last()));
            assert(joined(p).push(s.last()).drop_last() =~= joined(p));
        }
    } else {
        let q = pieces(s);
        assert(q =~= seq![Seq::<char>::empty()]);
        assert(q.drop_last() =~= Seq::<Seq<char>>::empty());
        assert(q.last() == Seq::<char>::empty());
        assert(joined(q.drop_last()) == Seq::<char>::empty());
        assert(joined(q) =~= Seq::<char>::empty());
    }
}

/// Collapsing whitespace keeps every non-whitespace character, in order, and
/// adds none.
pub proof fn lemma_collapse_keeps_text(s: Seq<char>)
    ensures
        non_ws(collapse_whitespace(s)) == non_ws(s),
    decreases s.len(),
{
    if s.len() > 0 {
        let c = collapse_whitespace(s.drop_last());
        lemma_collapse_keeps_text(s.drop_last());
        assert(c.push(s.last()).drop_last() =~= c);
        assert(c.push(' ').drop_last() =~= c);
    }
}

proof fn lemma_segments_text_empty(segs: Seq<SegmentView>)
    requires
        forall|i: int| 0 <= i < segs.len() ==> (#[trigger] segs[i]).text.len() == 0,
    ensures
        segments_text(segs) == Seq::<char>::empty(),
    decreases segs.len(),
{
    if segs.len() > 0 {
        let p = segs.drop_last();
        assert forall|i: int| 0 <= i < p.len() implies (#[trigger] p[i]).text.len() == 0 by {
            assert(p[i] == segs[i]);
        }
        lemma_segments_text_empty(p);
        assert(segs[segs.len() - 1].text.len() == 0);
        assert(segments_text(segs) =~= Seq::<char>::empty());
    }
}

proof fn lemma_visible_text(ls: Seq<LineView>)
    ensures
        lines_text(visible_lines(ls)) == lines_text(ls),
    decreases ls.len(),
{
    if ls.len() > 0 {
        lemma_visible_text(ls.drop_last());
        let v = visible_lines(ls.drop_last());
        if is_visible(ls.last()) {
            assert(v.push(ls.last()).drop_last() =~= v);
        } else {
            lemma_segments_text_empty(ls.last().segments);
            assert(lines_text(ls) =~= lines_text(ls.drop_last()));
        }
    }
}

/// A list item's prefix at depth `d`: two spaces per level, a bullet and a
/// space, so that each level of nesting indents two columns further.
pub proof fn lemma_bullet_shape(d: nat)
    ensures
        bullet(d).len() == 2 * d + 2,
        forall|i: int| 0 <= i < 2 * d ==> #[trigger] bullet(d)[i] == ' ',
        bullet(d)[2 * d as int] == '•',
        bullet(d)[2 * d as int + 1] == ' ',
{
    lemma_indent_shape(d);
}

proof fn lemma_indent_shape(d: nat)
    ensures
        indent(d).len() == 2 * d,
        forall|i: int| 0 <= i < 2 * d ==> #[trigger] indent(d)[i] == ' ',
    decreases d,
{
    if d > 0 {
        lemma_indent_shape((d - 1) as nat);
    }
}

/// What an event adds to the text shown: a text run its characters, a list
/// item its bullet, anything else nothing.
pub open spec fn shown_by(ev: MarkupEvent) -> Seq<char> {
    match ev {
        MarkupEvent::Text(content) => content@,
        MarkupEvent::Open(name) => if tag_of(name@) == Tag::Li {
            seq!['•']
        } else {
            Seq::empty()
        },
        _ => Seq::empty(),
    }
}

/// What a walk's events add to the text shown, one after the other.
pub open spec fn shown_text(evs: Seq<MarkupEvent>) -> Seq<char>
    decreases evs.len(),
{
    if evs.len() == 0 {
        Seq::empty()
    } else {
        shown_text(evs.drop_last()) + shown_by(evs.last())
    }
}

proof fn lemma_indent_blank(d: nat)
    ensures
        non_ws(indent(d)) == Seq::<char>::empty(),
    decreases d,
{
    if d > 0 {
        lemma_indent_blank((d - 1) as nat);
        let p = indent((d - 1) as nat);
        lemma_non_ws_append(p, seq![' ', ' ']);
        assert(seq![' ', ' '].drop_last() =~= seq![' ']);
        assert(seq![' '].drop_last() =~= Seq::<char>::empty());
        reveal_with_fuel(non_ws, 3);
        assert(non_ws(seq![' ', ' ']) =~= Seq::<char>::empty());
        assert(Seq::<char>::empty() + Seq::<char>::empty() =~= Seq::<char>::empty());
    }
}

proof fn lemma_bullet_text(d: nat)
    ensures
        non_ws(bullet(d)) == seq!['•'],
{
    lemma_indent_blank(d);
    lemma_non_ws_append(indent(d), seq!['•', ' ']);
    assert(seq!['•', ' '].drop_last() =~= seq!['•']);
    assert(seq!['•'].drop_last() =~= Seq::<char>::empty());
    reveal_with_fuel(non_ws, 3);
    assert(non_ws(seq!['•', ' ']) =~= seq!['•']);
    assert(Seq::<char>::empty() + seq!['•'] =~= seq!['•']);
}

/// One event keeps the text: the non-whitespace characters that the render
/// state holds grow by exactly those that the event adds to the text shown.
pub proof fn lemma_event_keeps_text(st: RenderState, ev: MarkupEvent)
    ensures
        non_ws(state_text(after_event(st, ev))) == non_ws(state_text(st)) + non_ws(shown_by(ev)),
{
    let e: Seq<char> = match ev {
        MarkupEvent::Text(content) => content@,
        _ => Seq::empty(),
    };
    assert(non_ws(state_text(st)) + non_ws(Seq::<char>::empty()) =~= non_ws(state_text(st)));
    match ev {
        MarkupEvent::Open(name) => {
            let t = tag_of(name@);
            lemma_flushed_text(st);
            if t == Tag::Li {
                let s1 = flushed(st);
                lemma_segment_text(s1, bullet(s1.depth), plain_style());
                lemma_non_ws_append(state_text(st), bullet(s1.depth));
                lemma_bullet_text(s1.depth);
                assert(seq!['•'].drop_last() =~= Seq::<char>::empty());
                assert(Seq::<char>::empty().push('•') =~= seq!['•']);
            }
        },
        MarkupEvent::Close => {
            if st.tags.len() > 0 {
                let t = st.tags.last();
                let s1 = RenderState { tags: st.tags.drop_last(), ..st };
                let s2 = if is_list(t) {
                    RenderState { depth: if s1.depth > 0 { (s1.depth - 1) as nat } else { 0 }, ..s1 }
                } else {
                    s1
                };
                lemma_flushed_text(s2);
                let f = flushed(s2);
                let g = RenderState { lines: f.lines.push(spacer_line()), ..f };
                assert(g.lines.drop_last() =~= f.lines);
                assert(segments_text(spacer_line().segments) =~= Seq::<char>::empty());
                assert(state_text(g) =~= state_text(f));
                let s3 = if is_block(t) {
                    if is_spaced(t) { g } else { f }
                } else {
                    s2
                };
                lemma_flushed_text(s3);
            }
        },
        MarkupEvent::Text(content) => {
            let c = content@;
            let style = style_of(st.tags);
            lemma_non_ws_append(state_text(st), c);
            if preserves(st.tags) {
                let ps = pieces(c);
                lemma_pieces_len(c);
                lemma_with_lines_text(st, ps.drop_last(), style);
                let w = with_lines(st, ps.drop_last(), style);
                lemma_piece_text(w, ps.last(), style);
                assert(state_text(w) + ps.last() =~= state_text(st) + joined(ps));
                lemma_non_ws_append(state_text(st), joined(ps));
                lemma_pieces_text(c);
            } else {
                let n = collapse_whitespace(c);
                lemma_collapse_keeps_text(c);
                if n.len() == 0 || (st.line.len() == 0 && n == seq![' ']) {
                    if n.len() > 0 {
                        assert(n.drop_last() =~= Seq::<char>::empty());
                    }
                    assert(non_ws(c) =~= Seq::<char>::empty());
                } else {
                    lemma_segment_text(st, n, style);
                    lemma_non_ws_append(state_text(st), n);
                }
            }
        },
        MarkupEvent::Other => {},
    }
}

/// A walk keeps the text: the non-whitespace characters of the render state
/// are those of the text runs, with one bullet per list item, in order.
pub proof fn lemma_events_keep_text(evs: Seq<MarkupEvent>)
    ensures
        non_ws(state_text(after_events(evs))) == non_ws(shown_text(evs)),
    decreases evs.len(),
{
    if evs.len() == 0 {
        assert(state_text(after_events(evs)) =~= Seq::<char>::empty());
    } else {
        let p = evs.drop_last();
        lemma_events_keep_text(p);
        lemma_event_keeps_text(after_events(p), evs.last());
        lemma_non_ws_append(shown_text(p), shown_by(evs.last()));
    }
}

proof fn lemma_shown_is_text(evs: Seq<MarkupEvent>)
    requires
        without_list_items(evs),
    ensures
        shown_text(evs) == events_text(evs),
    decreases evs.len(),
{
    if evs.len() > 0 {
        let p = evs.drop_last();
        assert forall|i: int| 0 <= i < p.len() implies match #[trigger] p[i] {
            MarkupEvent::Open(name) => tag_of(name@) != Tag::Li,
            _ => true,
        } by {
            assert(p[i] == evs[i]);
        }
        lemma_shown_is_text(p);
        let last = evs[evs.len() - 1];
        assert(last == evs.last());
    }
}

/// No text is lost, duplicated or reordered: the non-whitespace characters
/// of the rendered lines are those of the text runs, with one bullet for each
/// list item, in order.
pub proof fn lemma_rendered_keeps_text(evs: Seq<MarkupEvent>)
    ensures
        non_ws(lines_text(rendered(evs))) == non_ws(shown_text(evs)),
{
    lemma_events_keep_text(evs);
    let st = after_events(evs);
    lemma_flushed_text(st);
    let f = flushed(st);
    assert(segments_text(f.line) =~= Seq::<char>::empty());
    assert(state_text(f) =~= lines_text(f.lines));
    lemma_visible_text(f.lines);
}

/// Without list items, the non-whitespace characters of the rendered lines
/// are exactly those of the text runs, in order; this holds of the events
/// parsed from a document as of a tree's walk.
pub proof fn lemma_no_text_loss_in_events(evs: Seq<MarkupEvent>)
    requires
        without_list_items(evs),
    ensures
        non_ws(lines_text(rendered(evs))) == non_ws(events_text(evs)),
{
    lemma_rendered_keeps_text(evs);
    lemma_shown_is_text(evs);
}

/// No text is lost: outside list items (whose bullets add characters), the
/// non-whitespace characters of the rendered lines are exactly those of the
/// tree's text runs, in order.
pub proof fn lemma_no_text_loss(root: Node)
    requires
        without_list_items(flatten(root)),
    ensures
        non_ws(lines_text(rendered(flatten(root)))) == non_ws(events_text(flatten(root))),
{
    lemma_no_text_loss_in_events(flatten(root));
}

} // verus!
