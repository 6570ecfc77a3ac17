//! A terminal feed reader's library: the renderer that turns a markup tree into
//! styled terminal lines, the list of feeds to fetch, and the navigation state
//! of the two-pane view.
mod document;
mod feed_list;
mod lemmas;
mod markup;
mod render;
mod state;
mod style;
mod text;

pub use document::{document_to_text, parsed_events};
pub use feed_list::{
    non_empty, non_empty_lines, strings_view, trimmed, trimmed_lines, urls_from_list,
};
pub use lemmas::{
    events_text, joined, lemma_bullet_shape, lemma_collapse_keeps_text, lemma_event_keeps_text,
    lemma_events_keep_text, lemma_link_style, lemma_link_style_within, lemma_no_text_loss,
    lemma_no_text_loss_in_events, lemma_no_text_no_lines, lemma_render_deterministic,
    lemma_rendered_keeps_text, lemma_style_cumulative, lines_text, non_ws, segments_text,
    sets_color, shown_by, shown_text, state_text, without_content, without_list_items,
};
pub use markup::{
    classify_tag, is_block, is_block_element, is_block_tag, is_list, is_preserving, is_spaced,
    is_spaced_tag, same_text, should_add_spacing_after, tag_of, MarkupEvent, Node, Tag,
};
pub use render::{
    after_event, after_events, bullet, entered, events_of, exited, flatten, flatten_all, flushed,
    indent, initial_state, is_visible, lemma_pieces_len,
    lemma_visible_lines_shown, lines_view, pieces,
    render, render_events, rendered, segments_view, spacer_line, visible_lines, with_lines, with_piece,
    with_segment, with_text, Line, LineView, RenderState, SegmentView, StyledSegment,
};
pub use state::{
    after_key, all_pairs, author_name, dated, entries_from_feeds, entry_pairs, feed_author, feed_pairs,
    focused, handle_key_event, help_toggled, key_outcome, last_index, moved_down, moved_up,
    newer_or_same, newest_first, Entry, EntryWithAuthor, Feed, Key, KeyOutcome, SelectedWindow,
    State,
};
pub use style::{
    apply_tag_styles, is_whitespace_preserved, plain_style, preserves, resolve_style, style_of,
    with_tag, Color, Style,
};
pub use text::{chars_of, collapse_chars, collapse_whitespace, is_ws, normalize_whitespace};
