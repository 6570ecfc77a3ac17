//! Text attributes, and how the tags that enclose a text run decide them.
use vstd::prelude::*;
use crate::markup::{is_preserving, Tag};

verus! {

/// Foreground colours that the renderer uses; `None` in a style is the
/// terminal's default colour.
#[derive(Clone, Copy, Debug, PartialEq, Eq, Structural)]
pub enum Color {
    Yellow,
    Green,
    Blue,
}

/// The attributes of a text run.
#[derive(Clone, Copy, Debug, PartialEq, Eq, Structural)]
pub struct Style {
    pub bold: bool,
    pub italic: bool,
    pub underline: bool,
    pub color: Option<Color>,
}

/// No attribute set, default colour.
pub open spec fn plain_style() -> Style {
    Style { bold: false, italic: false, underline: false, color: None }
}

/// `s` with the attributes that tag `t` adds. Attributes are only ever set,
/// never cleared; a colour-bearing tag replaces the colour.
pub open spec fn with_tag(s: Style, t: Tag) -> Style {
    match t {
        Tag::B | Tag::Strong => Style { bold: true, ..s },
        Tag::I | Tag::Em => Style { italic: true, ..s },
        Tag::U => Style { underline: true, ..s },
        Tag::Pre | Tag::Code => Style { color: Some(Color::Green), ..s },
        Tag::H1 | Tag::H2 | Tag::H3 | Tag::H4 | Tag::H5 | Tag::H6 => Style {
            bold: true,
            color: Some(Color::Yellow),
            ..s
        },
        Tag::A => Style { underline: true, color: Some(Color::Blue), ..s },
        _ => s,
    }
}

/// The style of text inside the open tags `stack` (outermost first): the
/// tags are applied from the outside in, so the innermost colour-bearing tag
/// decides the colour.
pub open spec fn style_of(stack: Seq<Tag>) -> Style
    decreases stack.len(),
{
    if stack.len() == 0 {
        plain_style()
    } else {
        with_tag(style_of(stack.drop_last()), stack.last())
    }
}

/// Whether some open tag keeps whitespace as it is.
pub open spec fn preserves(stack: Seq<Tag>) -> bool {
    exists|i: int| 0 <= i < stack.len() && is_preserving(#[trigger] stack[i])
}

/// Adds to `styled` the attributes of tag `tag`.
pub fn apply_tag_styles(styled: &mut Style, tag: Tag)
    ensures
        *final(styled) == with_tag(*old(styled), tag),
{
    match tag {
        Tag::B | Tag::Strong => styled.bold = true,
        Tag::I | Tag::Em => styled.italic = true,
        Tag::U => styled.underline = true,
        Tag::Pre | Tag::Code => styled.color = Some(Color::Green),
        Tag::H1 | Tag::H2 | Tag::H3 | Tag::H4 | Tag::H5 | Tag::H6 => {
            styled.bold = true;
            styled.color = Some(Color::Yellow);
        },
        Tag::A => {
            styled.color = Some(Color::Blue);
            styled.underline = true;
        },
        _ => {},
    }
}

/// The style of text inside the open tags `stack`, outermost first.
pub fn resolve_style(stack: &Vec<Tag>) -> (s: Style)
    ensures
        s == style_of(stack@),
{
    let mut s = Style { bold: false, italic: false, underline: false, color: None };
    let mut i: usize = 0;
    while i < stack.len()
        invariant
            i <= stack.len(),
            s == style_of(stack@.take(i as int)),
        decreases stack.len() - i,
    {
        assert(stack@.take(i as int + 1).drop_last() == stack@.take(i as int));
        apply_tag_styles(&mut s, stack[i]);
        i = i + 1;
    }
    assert(stack@.take(stack.len() as int) == stack@);
    s
}

/// Whether text inside the open tags `tags` keeps its whitespace.
pub fn is_whitespace_preserved(tags: &Vec<Tag>) -> (r: bool)
    ensures
        r == preserves(tags@),
{
    let mut i: usize = 0;
    while i < tags.len()
        invariant
            i <= tags.len(),
            forall|k: int| 0 <= k < i ==> !is_preserving(#[trigger] tags@[k]),
        decreases tags.len() - i,
    {
        if tags[i] == Tag::Pre || tags[i] == Tag::Code {
            assert(is_preserving(tags@[i as int]));
            return true;
        }
        i = i + 1;
    }
    false
}

} // verus!
