//! The markup tree that the renderer reads, the tags it knows by name, and the
//! flat sequence of open / text / close events that a depth-first walk of a
//! tree produces.
use vstd::prelude::*;
use crate::text::chars_of;

verus! {

/// A node of a parsed markup tree.
#[derive(Debug, PartialEq, Eq)]
pub enum Node {
    Element { tag: String, children: Vec<Node> },
    Text { content: String },
}

/// One step of a depth-first walk of a markup tree.
#[derive(Debug, PartialEq, Eq)]
pub enum MarkupEvent {
    /// Entering an element with the given tag name.
    Open(String),
    /// Leaving the element most recently entered and not yet left.
    Close,
    /// A text run.
    Text(String),
    /// Anything else (a comment, a processing instruction): ignored.
    Other,
}

/// The tags that the renderer treats specially; every other name is `Other`.
#[derive(Clone, Copy, Debug, PartialEq, Eq, Structural)]
pub enum Tag {
    P,
    Div,
    H1,
    H2,
    H3,
    H4,
    H5,
    H6,
    Ul,
    Ol,
    Li,
    Blockquote,
    Pre,
    Section,
    Article,
    Header,
    Footer,
    Nav,
    B,
    Strong,
    I,
    Em,
    U,
    Code,
    A,
    Br,
    Other,
}

/// The tag that a tag name stands for.
pub open spec fn tag_of(name: Seq<char>) -> Tag {
    if name == "p"@ { Tag::P }
    else if name == "div"@ { Tag::Div }
    else if name == "h1"@ { Tag::H1 }
    else if name == "h2"@ { Tag::H2 }
    else if name == "h3"@ { Tag::H3 }
    else if name == "h4"@ { Tag::H4 }
    else if name == "h5"@ { Tag::H5 }
    else if name == "h6"@ { Tag::H6 }
    else if name == "ul"@ { Tag::Ul }
    else if name == "ol"@ { Tag::Ol }
    else if name == "li"@ { Tag::Li }
    else if name == "blockquote"@ { Tag::Blockquote }
    else if name == "pre"@ { Tag::Pre }
    else if name == "section"@ { Tag::Section }
    else if name == "article"@ { Tag::Article }
    else if name == "header"@ { Tag::Header }
    else if name == "footer"@ { Tag::Footer }
    else if name == "nav"@ { Tag::Nav }
    else if name == "b"@ { Tag::B }
    else if name == "strong"@ { Tag::Strong }
    else if name == "i"@ { Tag::I }
    else if name == "em"@ { Tag::Em }
    else if name == "u"@ { Tag::U }
    else if name == "code"@ { Tag::Code }
    else if name == "a"@ { Tag::A }
    else if name == "br"@ { Tag::Br }
    else { Tag::Other }
}

/// Block-level tags start and end on a line of their own.
pub open spec fn is_block(t: Tag) -> bool {
    match t {
        Tag::P | Tag::Div | Tag::H1 | Tag::H2 | Tag::H3 | Tag::H4 | Tag::H5 | Tag::H6
        | Tag::Ul | Tag::Ol | Tag::Li | Tag::Blockquote | Tag::Pre | Tag::Section
        | Tag::Article | Tag::Header | Tag::Footer | Tag::Nav => true,
        _ => false,
    }
}

/// List containers, which deepen the indentation of their items.
pub open spec fn is_list(t: Tag) -> bool {
    t == Tag::Ul || t == Tag::Ol
}

/// Blocks followed by one blank spacer line.
pub open spec fn is_spaced(t: Tag) -> bool {
    match t {
        Tag::P | Tag::H1 | Tag::H2 | Tag::H3 | Tag::Pre | Tag::Blockquote => true,
        _ => false,
    }
}

/// Tags inside which whitespace is kept as it is.
pub open spec fn is_preserving(t: Tag) -> bool {
    t == Tag::Pre || t == Tag::Code
}

/// Whether two strings hold the same characters.
pub fn same_text(a: &str, b: &str) -> (r: bool)
    ensures
        r == (a@ == b@),
{
    let x = chars_of(a);
    let y = chars_of(b);
    if x.len() != y.len() {
        return false;
    }
    let mut i: usize = 0;
    while i < x.len()
        invariant
            x@ == a@,
            y@ == b@,
            x.len() == y.len(),
            i <= x.len(),
            forall|k: int| 0 <= k < i ==> x@[k] == y@[k],
        decreases x.len() - i,
    {
        if x[i] != y[i] {
            assert(x@[i as int] != y@[i as int]);
            return false;
        }
        i = i + 1;
    }
    assert(x@ == y@);
    true
}

/// The tag that a tag name stands for.
pub fn classify_tag(name: &str) -> (t: Tag)
    ensures
        t == tag_of(name@),
{
    if same_text(name, "p") { Tag::P }
    else if same_text(name, "div") { Tag::Div }
    else if same_text(name, "h1") { Tag::H1 }
    else if same_text(name, "h2") { Tag::H2 }
    else if same_text(name, "h3") { Tag::H3 }
    else if same_text(name, "h4") { Tag::H4 }
    else if same_text(name, "h5") { Tag::H5 }
    else if same_text(name, "h6") { Tag::H6 }
    else if same_text(name, "ul") { Tag::Ul }
    else if same_text(name, "ol") { Tag::Ol }
    else if same_text(name, "li") { Tag::Li }
    else if same_text(name, "blockquote") { Tag::Blockquote }
    else if same_text(name, "pre") { Tag::Pre }
    else if same_text(name, "section") { Tag::Section }
    else if same_text(name, "article") { Tag::Article }
    else if same_text(name, "header") { Tag::Header }
    else if same_text(name, "footer") { Tag::Footer }
    else if same_text(name, "nav") { Tag::Nav }
    else if same_text(name, "b") { Tag::B }
    else if same_text(name, "strong") { Tag::Strong }
    else if same_text(name, "i") { Tag::I }
    else if same_text(name, "em") { Tag::Em }
    else if same_text(name, "u") { Tag::U }
    else if same_text(name, "code") { Tag::Code }
    else if same_text(name, "a") { Tag::A }
    else if same_text(name, "br") { Tag::Br }
    else { Tag::Other }
}

/// Whether tag `t` is block-level.
pub fn is_block_tag(t: Tag) -> (r: bool)
    ensures
        r == is_block(t),
{
    match t {
        Tag::P | Tag::Div | Tag::H1 | Tag::H2 | Tag::H3 | Tag::H4 | Tag::H5 | Tag::H6
        | Tag::Ul | Tag::Ol | Tag::Li | Tag::Blockquote | Tag::Pre | Tag::Section
        | Tag::Article | Tag::Header | Tag::Footer | Tag::Nav => true,
        _ => false,
    }
}

/// Whether a block with tag `t` is followed by a spacer line.
pub fn is_spaced_tag(t: Tag) -> (r: bool)
    ensures
        r == is_spaced(t),
{
    match t {
        Tag::P | Tag::H1 | Tag::H2 | Tag::H3 | Tag::Pre | Tag::Blockquote => true,
        _ => false,
    }
}

/// Whether the element with this tag name is block-level.
pub fn is_block_element(tag: &str) -> (r: bool)
    ensures
        r == is_block(tag_of(tag@)),
{
    is_block_tag(classify_tag(tag))
}

/// Whether a block with this tag name is followed by a blank spacer line.
pub fn should_add_spacing_after(tag_name: &str) -> (r: bool)
    ensures
        r == is_spaced(tag_of(tag_name@)),
{
    is_spaced_tag(classify_tag(tag_name))
}

} // verus!
