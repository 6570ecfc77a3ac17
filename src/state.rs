//! The reader's view state: the entries of all feeds, newest first, which one
//! is selected, which pane has the focus, and how far the entry is scrolled.
use vstd::prelude::*;
use vstd::string::StringExecFns;

verus! {

/// The pane (or popup) that has the focus.
#[derive(Clone, Copy, Debug, PartialEq, Eq, Structural)]
pub enum SelectedWindow {
    EntryList,
    EntryContent,
    HelpPopup,
}

/// An entry of a feed, with what the reader shows of it.
#[derive(Debug, PartialEq, Eq)]
pub struct Entry {
    pub title: Option<String>,
    /// Last update, in milliseconds since the Unix epoch.
    pub updated: Option<i64>,
    /// The update date as shown in the entry list.
    pub updated_label: Option<String>,
    /// Names of the entry's authors, in order.
    pub authors: Vec<String>,
    /// Names of the entry's contributors, in order.
    pub contributors: Vec<String>,
    /// The entry's content, as markup.
    pub body: Option<String>,
    /// The entry's links, in order.
    pub links: Vec<String>,
}

/// A feed: the names of its authors and its entries.
#[derive(Debug, PartialEq, Eq)]
pub struct Feed {
    pub authors: Vec<String>,
    pub entries: Vec<Entry>,
}

/// An entry with the author name that the list shows for it.
#[derive(Debug, PartialEq, Eq)]
pub struct EntryWithAuthor {
    pub entry: Entry,
    pub author: String,
}

/// The author shown for `entry`: its first author, else its first
/// contributor, else the feed's author `fallback`, else "Unknown Author".
pub open spec fn author_name(entry: Entry, fallback: Option<String>) -> Seq<char> {
    if entry.authors.len() > 0 {
        entry.authors@[0]@
    } else if entry.contributors.len() > 0 {
        entry.contributors@[0]@
    } else if fallback is Some {
        fallback->0@
    } else {
        "Unknown Author"@
    }
}

impl EntryWithAuthor {
    pub fn new(entry: Entry, author: Option<String>) -> (r: Self)
        ensures
            r.entry == entry,
            r.author@ == author_name(entry, author),
    {
        let name = if entry.authors.len() > 0 {
            entry.authors[0].clone()
        } else if entry.contributors.len() > 0 {
            entry.contributors[0].clone()
        } else {
            match author {
                Some(a) => a,
                None => String::from_str("Unknown Author"),
            }
        };
        EntryWithAuthor { entry, author: name }
    }
}

/// Whether an entry updated at `a` comes no later in the list than one
/// updated at `b`: newer first, entries without a date last.
pub open spec fn newer_or_same(a: Option<i64>, b: Option<i64>) -> bool {
    match (a, b) {
        (_, None) => true,
        (None, Some(_)) => false,
        (Some(x), Some(y)) => x >= y,
    }
}

/// Entries ordered newest first.
pub open spec fn newest_first(s: Seq<EntryWithAuthor>) -> bool {
    forall|i: int, j: int|
        0 <= i < j < s.len() ==> newer_or_same(#[trigger] s[i].entry.updated, #[trigger] s[j].entry.updated)
}

fn newer_or_same_exec(a: Option<i64>, b: Option<i64>) -> (r: bool)
    ensures
        r == newer_or_same(a, b),
{
    match (a, b) {
        (_, None) => true,
        (None, Some(_)) => false,
        (Some(x), Some(y)) => x >= y,
    }
}

/// Each entry with the name of the author shown for it.
pub open spec fn entry_pairs(s: Seq<EntryWithAuthor>) -> Seq<(Entry, Seq<char>)> {
    s.map_values(|e: EntryWithAuthor| (e.entry, e.author@))
}

/// The author of a feed that its entries fall back on: its first one.
pub open spec fn feed_author(f: Feed) -> Option<String> {
    if f.authors.len() > 0 {
        Some(f.authors@[0])
    } else {
        None
    }
}

/// The entries of a feed, each with the author shown for it.
pub open spec fn feed_pairs(f: Feed) -> Seq<(Entry, Seq<char>)> {
    f.entries@.map_values(|e: Entry| (e, author_name(e, feed_author(f))))
}

/// The entries of all feeds, feed after feed, each with its author.
pub open spec fn all_pairs(fs: Seq<Feed>) -> Seq<(Entry, Seq<char>)>
    decreases fs.len(),
{
    if fs.len() == 0 {
        Seq::empty()
    } else {
        all_pairs(fs.drop_last()) + feed_pairs(fs.last())
    }
}

/// The entries of `s` updated at `d`, in their order in `s`.
pub open spec fn dated(s: Seq<(Entry, Seq<char>)>, d: Option<i64>) -> Seq<(Entry, Seq<char>)>
    decreases s.len(),
{
    if s.len() == 0 {
        Seq::empty()
    } else if s.last().0.updated == d {
        dated(s.drop_last(), d).push(s.last())
    } else {
        dated(s.drop_last(), d)
    }
}

proof fn lemma_dated_append(a: Seq<(Entry, Seq<char>)>, b: Seq<(Entry, Seq<char>)>, d: Option<i64>)
    ensures
        dated(a + b, d) == dated(a, d) + dated(b, d),
    decreases b.len(),
{
    if b.len() == 0 {
        assert(a + b =~= a);
        assert(dated(a, d) + dated(b, d) =~= dated(a, d));
    } else {
        lemma_dated_append(a, b.drop_last(), d);
        assert((a + b).drop_last() =~= a + b.drop_last());
        assert((a + b).last() == b.last());
        assert((dated(a, d) + dated(b.drop_last(), d)).push(b.last()) =~= dated(a, d) + dated(
            b.drop_last(),
            d,
        ).push(b.last()));
    }
}

proof fn lemma_dated_none(s: Seq<(Entry, Seq<char>)>, d: Option<i64>)
    requires
        forall|i: int| 0 <= i < s.len() ==> (#[trigger] s[i]).0.updated != d,
    ensures
        dated(s, d) == Seq::<(Entry, Seq<char>)>::empty(),
    decreases s.len(),
{
    if s.len() > 0 {
        let p = s.drop_last();
        assert forall|i: int| 0 <= i < p.len() implies (#[trigger] p[i]).0.updated != d by {
            assert(p[i] == s[i]);
        }
        lemma_dated_none(p, d);
        assert(s[s.len() - 1].0.updated != d);
    }
}

proof fn lemma_dated_push(s: Seq<(Entry, Seq<char>)>, x: (Entry, Seq<char>), d: Option<i64>)
    ensures
        dated(s.push(x), d) == if x.0.updated == d { dated(s, d).push(x) } else { dated(s, d) },
{
    assert(s.push(x).drop_last() =~= s);
}

/// Inserts `e` into the newest-first list `out`, after the entries that are
/// not older than it.
fn insert_by_date(out: &mut Vec<EntryWithAuthor>, e: EntryWithAuthor)
    requires
        newest_first(old(out)@),
    ensures
        newest_first(final(out)@),
        entry_pairs(final(out)@).to_multiset() == entry_pairs(old(out)@).to_multiset().insert(
            (e.entry, e.author@),
        ),
        forall|d: Option<i64>|
            #[trigger] dated(entry_pairs(final(out)@), d) == dated(
                entry_pairs(old(out)@).push((e.entry, e.author@)),
                d,
            ),
{
    let mut k: usize = 0;
    while k < out.len() && newer_or_same_exec(out[k].entry.updated, e.entry.updated)
        invariant
            out@ == old(out)@,
            k <= out.len(),
            forall|j: int| 0 <= j < k ==> newer_or_same(#[trigger] out@[j].entry.updated, e.entry.updated),
        decreases out.len() - k,
    {
        k = k + 1;
    }
    let ghost before = out@;
    let ghost pair = (e.entry, e.author@);
    proof {
        vstd::seq_lib::to_multiset_insert(entry_pairs(before), k as int, pair);
    }
    out.insert(k, e);
    assert(out@ == before.insert(k as int, e));
    assert(entry_pairs(out@) =~= entry_pairs(before).insert(k as int, pair));
    let ghost ps = entry_pairs(before);
    assert forall|d: Option<i64>| #[trigger] dated(entry_pairs(out@), d) == dated(ps.push(pair), d) by {
        let head = ps.take(k as int);
        let tail = ps.skip(k as int);
        assert(ps =~= head + tail);
        assert(entry_pairs(out@) =~= head + seq![pair] + tail);
        lemma_dated_append(head, tail, d);
        lemma_dated_append(head + seq![pair], tail, d);
        lemma_dated_append(head, seq![pair], d);
        lemma_dated_push(ps, pair, d);
        lemma_dated_push(Seq::empty(), pair, d);
        assert(seq![pair] =~= Seq::<(Entry, Seq<char>)>::empty().push(pair));
        if d == e.entry.updated {
            assert forall|i: int| 0 <= i < tail.len() implies (#[trigger] tail[i]).0.updated != d by {
                assert(tail[i] == ps[k + i]);
                assert(ps[k + i].0.updated == before[k + i].entry.updated);
                assert(!newer_or_same(before[k as int].entry.updated, e.entry.updated));
                if i > 0 {
                    assert(newer_or_same(before[k as int].entry.updated, before[k + i].entry.updated));
                }
            }
            lemma_dated_none(tail, d);
            assert(dated(ps, d) =~= dated(head, d));
            assert(dated(head, d) + dated(seq![pair], d) + dated(tail, d) =~= dated(head, d).push(pair));
        } else {
            assert(dated(seq![pair], d) =~= Seq::<(Entry, Seq<char>)>::empty());
            assert(dated(head, d) + dated(seq![pair], d) =~= dated(head, d));
        }
    }
    assert forall|i: int, j: int| 0 <= i < j < out@.len() implies newer_or_same(
        #[trigger] out@[i].entry.updated,
        #[trigger] out@[j].entry.updated,
    ) by {
        if j < k {
            assert(out@[i] == before[i] && out@[j] == before[j]);
        } else if j == k {
            assert(out@[i] == before[i]);
        } else if i == k {
            assert(out@[j] == before[j - 1]);
            if k < before.len() {
                assert(!newer_or_same(before[k as int].entry.updated, e.entry.updated));
                if j - 1 > k {
                    assert(newer_or_same(before[k as int].entry.updated, before[j - 1].entry.updated));
                }
            }
        } else if i < k {
            assert(out@[i] == before[i] && out@[j] == before[j - 1]);
        } else {
            assert(out@[i] == before[i - 1] && out@[j] == before[j - 1]);
        }
    }
}

/// The entries of all feeds, each with the author shown for it, newest first;
/// entries with the same date keep their order, feed after feed.
pub fn entries_from_feeds(feeds: Vec<Feed>) -> (r: Vec<EntryWithAuthor>)
    ensures
        newest_first(r@),
        entry_pairs(r@).to_multiset() == all_pairs(feeds@).to_multiset(),
        forall|d: Option<i64>| #[trigger] dated(entry_pairs(r@), d) == dated(all_pairs(feeds@), d),
{
    let ghost fs = feeds@;
    let mut out: Vec<EntryWithAuthor> = Vec::new();
    proof {
        assert(entry_pairs(out@) =~= all_pairs(fs.take(0)));
    }
    for feed in it: feeds.into_iter()
        invariant
            it.seq() == fs,
            newest_first(out@),
            entry_pairs(out@).to_multiset() == all_pairs(fs.take(it.index() as int)).to_multiset(),
            forall|d: Option<i64>|
                #[trigger] dated(entry_pairs(out@), d) == dated(all_pairs(fs.take(it.index() as int)), d),
    {
        let ghost fi = it.index() as int;
        let ghost f = feed;
        assert(f == fs[fi]);
        assert(fs.take(fi + 1).drop_last() =~= fs.take(fi));
        let ghost done = all_pairs(fs.take(fi));
        let fallback: Option<String> = if feed.authors.len() > 0 {
            Some(feed.authors[0].clone())
        } else {
            None
        };
        let Feed { authors, entries } = feed;
        let ghost es = entries@;
        proof {
            assert(done + feed_pairs(f).take(0) =~= done);
        }
        for entry in it2: entries.into_iter()
            invariant
                it2.seq() == es,
                es == f.entries@,
                fallback == feed_author(f),
                newest_first(out@),
                entry_pairs(out@).to_multiset() == (done + feed_pairs(f).take(
                    it2.index() as int,
                )).to_multiset(),
                forall|d: Option<i64>|
                    #[trigger] dated(entry_pairs(out@), d) == dated(
                        done + feed_pairs(f).take(it2.index() as int),
                        d,
                    ),
        {
            let ghost j = it2.index() as int;
            let author = match &fallback {
                Some(a) => Some(a.clone()),
                None => None,
            };
            let e = EntryWithAuthor::new(entry, author);
            proof {
                assert(entry == es[j]);
                assert(feed_pairs(f)[j] == (e.entry, e.author@));
                assert(done + feed_pairs(f).take(j + 1) =~= (done + feed_pairs(f).take(j)).push(
                    (e.entry, e.author@),
                ));
                vstd::seq_lib::to_multiset_build(done + feed_pairs(f).take(j), (e.entry, e.author@));
            }
            let ghost src = done + feed_pairs(f).take(j);
            let ghost pair = (e.entry, e.author@);
            let ghost prev_pairs = entry_pairs(out@);
            insert_by_date(&mut out, e);
            proof {
                assert forall|d: Option<i64>| #[trigger] dated(entry_pairs(out@), d) == dated(
                    src.push(pair),
                    d,
                ) by {
                    lemma_dated_push(prev_pairs, pair, d);
                    lemma_dated_push(src, pair, d);
                    assert(dated(entry_pairs(out@), d) == dated(prev_pairs.push(pair), d));
                }
            }
        }
        proof {
            assert(feed_pairs(f).take(es.len() as int) =~= feed_pairs(f));
        }
    }
    assert(fs.take(fs.len() as int) =~= fs);
    out
}

/// What the view shows and where the focus is.
pub struct State {
    /// Index of the selected entry in `entries`.
    pub selected_entry: usize,
    /// The entries of all feeds, newest first.
    pub entries: Vec<EntryWithAuthor>,
    /// Whether the entry is shown as raw markup rather than rendered.
    pub render_raw_html: bool,
    pub selected_window: SelectedWindow,
    /// How many lines the entry's content is scrolled down.
    pub entry_scroll_offset: u16,
}

/// A key that the view reacts to.
#[derive(Clone, Copy, Debug, PartialEq, Eq, Structural)]
pub enum Key {
    Down,
    Up,
    Left,
    Right,
    Enter,
    Char(char),
    Other,
}

/// What is left to do after a key: nothing, open the selected entry's link,
/// or quit.
#[derive(Clone, Copy, Debug, PartialEq, Eq, Structural)]
pub enum KeyOutcome {
    Continue,
    OpenLink,
    Exit,
}

/// The index of the last entry of a list of `n`, or 0 for an empty list.
pub open spec fn last_index(n: nat) -> nat {
    if n > 0 { (n - 1) as nat } else { 0 }
}

/// The view after Down: the next entry in the list (the content back at the
/// top), or the content scrolled one line further down.
pub open spec fn moved_down(s: State) -> State {
    match s.selected_window {
        SelectedWindow::EntryList => if s.selected_entry < last_index(s.entries.len() as nat) {
            State { selected_entry: (s.selected_entry + 1) as usize, entry_scroll_offset: 0, ..s }
        } else {
            s
        },
        SelectedWindow::EntryContent => State {
            entry_scroll_offset: if s.entry_scroll_offset < u16::MAX {
                (s.entry_scroll_offset + 1) as u16
            } else {
                u16::MAX
            },
            ..s
        },
        SelectedWindow::HelpPopup => s,
    }
}

/// The view after Up: the previous entry in the list (the content back at
/// the top), or the content scrolled one line further up.
pub open spec fn moved_up(s: State) -> State {
    match s.selected_window {
        SelectedWindow::EntryList => if s.selected_entry > 0 {
            State { selected_entry: (s.selected_entry - 1) as usize, entry_scroll_offset: 0, ..s }
        } else {
            s
        },
        SelectedWindow::EntryContent => State {
            entry_scroll_offset: if s.entry_scroll_offset > 0 {
                (s.entry_scroll_offset - 1) as u16
            } else {
                0
            },
            ..s
        },
        SelectedWindow::HelpPopup => s,
    }
}

/// The view with the focus moved to `w`, unless the help is shown.
pub open spec fn focused(s: State, w: SelectedWindow) -> State {
    if s.selected_window == SelectedWindow::HelpPopup {
        s
    } else {
        State { selected_window: w, ..s }
    }
}

/// The view with the help shown, or hidden with the focus on the list.
pub open spec fn help_toggled(s: State) -> State {
    State {
        selected_window: if s.selected_window == SelectedWindow::HelpPopup {
            SelectedWindow::EntryList
        } else {
            SelectedWindow::HelpPopup
        },
        ..s
    }
}

/// The view after a key.
pub open spec fn after_key(s: State, key: Key) -> State {
    match key {
        Key::Down => moved_down(s),
        Key::Up => moved_up(s),
        Key::Left => focused(s, SelectedWindow::EntryList),
        Key::Right => focused(s, SelectedWindow::EntryContent),
        Key::Char(c) => if c == 'r' {
            State { render_raw_html: !s.render_raw_html, ..s }
        } else if c == 'h' {
            help_toggled(s)
        } else {
            s
        },
        _ => s,
    }
}

/// What is left to do after a key.
pub open spec fn key_outcome(key: Key) -> KeyOutcome {
    match key {
        Key::Enter => KeyOutcome::OpenLink,
        Key::Char(c) => if c == 'q' { KeyOutcome::Exit } else { KeyOutcome::Continue },
        _ => KeyOutcome::Continue,
    }
}

impl State {
    /// The view of `feeds`: entries newest first, the first one selected,
    /// the focus on the list.
    pub fn new(feeds: Vec<Feed>) -> (r: State)
        ensures
            newest_first(r.entries@),
            entry_pairs(r.entries@).to_multiset() == all_pairs(feeds@).to_multiset(),
            forall|d: Option<i64>|
                #[trigger] dated(entry_pairs(r.entries@), d) == dated(all_pairs(feeds@), d),
            r.selected_entry == 0,
            !r.render_raw_html,
            r.selected_window == SelectedWindow::EntryList,
            r.entry_scroll_offset == 0,
    {
        let entries = entries_from_feeds(feeds);
        State {
            selected_entry: 0,
            entries,
            render_raw_html: false,
            selected_window: SelectedWindow::EntryList,
            entry_scroll_offset: 0,
        }
    }

    /// Down: the next entry in the list (the content scrolls back to the
    /// top), or the content one line further down.
    pub fn move_down(&mut self)
        ensures
            *final(self) == moved_down(*old(self)),
    {
        match self.selected_window {
            SelectedWindow::EntryList => {
                if self.selected_entry < self.entries.len().saturating_sub(1) {
                    self.selected_entry = self.selected_entry + 1;
                    self.entry_scroll_offset = 0;
                }
            },
            SelectedWindow::EntryContent => {
                self.entry_scroll_offset = self.entry_scroll_offset.saturating_add(1);
            },
            SelectedWindow::HelpPopup => {},
        }
    }

    /// Up: the previous entry in the list (the content scrolls back to the
    /// top), or the content one line further up.
    pub fn move_up(&mut self)
        ensures
            *final(self) == moved_up(*old(self)),
    {
        match self.selected_window {
            SelectedWindow::EntryList => {
                if self.selected_entry > 0 {
                    self.selected_entry = self.selected_entry - 1;
                    self.entry_scroll_offset = 0;
                }
            },
            SelectedWindow::EntryContent => {
                self.entry_scroll_offset = self.entry_scroll_offset.saturating_sub(1);
            },
            SelectedWindow::HelpPopup => {},
        }
    }

    /// Left: the focus goes to the entry list, unless the help is shown.
    pub fn move_left(&mut self)
        ensures
            *final(self) == focused(*old(self), SelectedWindow::EntryList),
    {
        match self.selected_window {
            SelectedWindow::HelpPopup => {},
            SelectedWindow::EntryContent | SelectedWindow::EntryList => {
                self.selected_window = SelectedWindow::EntryList;
            },
        }
    }

    /// Right: the focus goes to the entry's content, unless the help is shown.
    pub fn move_right(&mut self)
        ensures
            *final(self) == focused(*old(self), SelectedWindow::EntryContent),
    {
        match self.selected_window {
            SelectedWindow::HelpPopup => {},
            SelectedWindow::EntryContent | SelectedWindow::EntryList => {
                self.selected_window = SelectedWindow::EntryContent;
            },
        }
    }

    /// Replaces the entries with those of `feeds`; the selection stays where
    /// it was, or moves to the last entry if the list got shorter.
    pub fn update_feeds(&mut self, feeds: Vec<Feed>)
        ensures
            newest_first(final(self).entries@),
            entry_pairs(final(self).entries@).to_multiset() == all_pairs(feeds@).to_multiset(),
            forall|d: Option<i64>|
                #[trigger] dated(entry_pairs(final(self).entries@), d) == dated(all_pairs(feeds@), d),
            final(self).selected_entry == if old(self).selected_entry
                >= final(self).entries.len() {
                last_index(final(self).entries.len() as nat) as usize
            } else {
                old(self).selected_entry
            },
            final(self).selected_window == old(self).selected_window,
            final(self).entry_scroll_offset == old(self).entry_scroll_offset,
            final(self).render_raw_html == old(self).render_raw_html,
    {
        self.entries = entries_from_feeds(feeds);
        if self.selected_entry >= self.entries.len() {
            self.selected_entry = self.entries.len().saturating_sub(1);
        }
    }

    /// The markup of the selected entry's content, or "No Content".
    pub fn get_selected_entry_body(&self) -> (r: &str)
        requires
            self.selected_entry < self.entries.len(),
        ensures
            r@ == match self.entries@[self.selected_entry as int].entry.body {
                Some(b) => b@,
                None => "No Content"@,
            },
    {
        match &self.entries[self.selected_entry].entry.body {
            Some(b) => b.as_str(),
            None => "No Content",
        }
    }

    /// Switches between the rendered entry and its raw markup.
    pub fn switch_render_mode(&mut self)
        ensures
            *final(self) == (State { render_raw_html: !old(self).render_raw_html, ..*old(self) }),
    {
        self.render_raw_html = !self.render_raw_html;
    }

    /// The first link of the selected entry, if it has one.
    pub fn selected_entry_link(&self) -> (r: Option<String>)
        requires
            self.selected_entry < self.entries.len(),
        ensures
            ({
                let links = self.entries@[self.selected_entry as int].entry.links@;
                &&& r is Some <==> links.len() > 0
                &&& r is Some ==> r->0 == links[0]
            }),
    {
        let links = &self.entries[self.selected_entry].entry.links;
        if links.len() > 0 {
            Some(links[0].clone())
        } else {
            None
        }
    }

    /// Shows the help, or hides it and gives the focus to the entry list.
    pub fn toggle_help(&mut self)
        ensures
            *final(self) == help_toggled(*old(self)),
    {
        match self.selected_window {
            SelectedWindow::HelpPopup => {
                self.selected_window = SelectedWindow::EntryList;
            },
            _ => {
                self.selected_window = SelectedWindow::HelpPopup;
            },
        }
    }
}

/// Applies a key to the view: arrows move, 'r' switches the render mode, 'h'
/// toggles the help, Enter asks for the selected entry's link to be opened
/// and 'q' asks to quit; other keys do nothing.
pub fn handle_key_event(key: Key, state: &mut State) -> (r: KeyOutcome)
    ensures
        r == key_outcome(key),
        *final(state) == after_key(*old(state), key),
{
    match key {
        Key::Down => state.move_down(),
        Key::Up => state.move_up(),
        Key::Left => state.move_left(),
        Key::Right => state.move_right(),
        Key::Enter => return KeyOutcome::OpenLink,
        Key::Char(c) => {
            if c == 'r' {
                state.switch_render_mode();
            } else if c == 'h' {
                state.toggle_help();
            } else if c == 'q' {
                return KeyOutcome::Exit;
            }
        },
        Key::Other => {},
    }
    KeyOutcome::Continue
}

} // verus!
