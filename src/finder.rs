//! The interactive picker's logic: search filtering, the selection state
//! machine driven by key presses, and rendering to display lines.
use vstd::prelude::*;
use vstd::string::*;
use crossterm::style::Stylize;
use crate::text::{lower_of, lowercase, push_char, pop_char};

verus! {

/// What the picker needs of an item: how it is found by a search, whether it
/// starts out staged, how it is shown, and when two items are the same one.
pub trait FinderItem: Sized {
    /// Whether a lower-cased search query finds the item.
    spec fn found_by(&self, query: Seq<char>) -> bool;

    /// The staged flag that the item starts with.
    spec fn starts_staged(&self) -> bool;

    /// The text that shows the item.
    spec fn label(&self) -> Seq<char>;

    /// Whether `self` and `other` are the same item.
    spec fn same_as(&self, other: &Self) -> bool;

    /// The empty query finds every item.
    proof fn lemma_empty_query_finds(&self)
        ensures
            self.found_by(Seq::empty()),
    ;

    /// Whether the lower-cased `search` finds the item.
    fn search_include(&self, search: &str) -> (r: bool)
        ensures
            r == self.found_by(search@),
    ;

    /// Whether the item starts out staged.
    fn initial_seleted(&self) -> (r: bool)
        ensures
            r == self.starts_staged(),
    ;

    /// The text that shows the item.
    fn display(&self) -> (r: String)
        ensures
            r@ == self.label(),
    ;

    /// Whether `self` and `other` are the same item.
    fn same_item(&self, other: &Self) -> (r: bool)
        ensures
            r == self.same_as(other),
    ;
}

/// An item together with its staged flag.
#[derive(Clone, Debug)]
pub struct StageAble<T> {
    pub staged: bool,
    pub data: T,
}

/// The marker in front of a row: `[X]` for a staged item, `[ ]` otherwise.
pub open spec fn marker(staged: bool) -> Seq<char> {
    if staged {
        "[X] "@
    } else {
        "[ ] "@
    }
}

/// The row that shows an item with its staged flag.
pub open spec fn row_text<T: FinderItem>(s: StageAble<T>) -> Seq<char> {
    marker(s.staged) + s.data.label()
}

impl<T> StageAble<T> {
    /// The item, not staged.
    pub fn new(data: T) -> (r: StageAble<T>)
        ensures
            !r.staged,
            r.data == data,
    {
        StageAble { staged: false, data }
    }
}

impl<T: FinderItem> StageAble<T> {
    /// The row text: the staged marker followed by the item's text.
    pub fn to_string(&self) -> (r: String)
        ensures
            r@ == row_text(*self),
    {
        let mut line = if self.staged {
            String::from_str("[X] ")
        } else {
            String::from_str("[ ] ")
        };
        let text = self.data.display();
        line.append(text.as_str());
        line
    }
}

proof fn lemma_matching_same_items<T: FinderItem>(
    a: Seq<StageAble<T>>,
    b: Seq<StageAble<T>>,
    query: Seq<char>,
    n: nat,
)
    requires
        n <= a.len(),
        a.len() == b.len(),
        forall|k: int| 0 <= k < a.len() ==> #[trigger] a[k].data == b[k].data,
    ensures
        matching(a, query, n) == matching(b, query, n),
    decreases n,
{
    if n > 0 {
        lemma_matching_same_items(a, b, query, (n - 1) as nat);
    }
}

/// Indices, in increasing order, of the first `n` entries that `query` finds.
pub open spec fn matching<T: FinderItem>(entries: Seq<StageAble<T>>, query: Seq<char>, n: nat) -> Seq<usize>
    decreases n,
{
    if n == 0 {
        Seq::empty()
    } else {
        let before = matching(entries, query, (n - 1) as nat);
        if entries[n - 1].data.found_by(query) {
            before.push((n - 1) as usize)
        } else {
            before
        }
    }
}

/// The entries that the indices point at, in the order of the indices.
pub open spec fn pick<T>(entries: Seq<StageAble<T>>, idx: Seq<usize>) -> Seq<StageAble<T>> {
    idx.map_values(|i: usize| entries[i as int])
}

/// The filtered view of `entries` for a search text: the indices of the
/// entries found by the lower-cased search, in their original order.
pub open spec fn filtered<T: FinderItem>(entries: Seq<StageAble<T>>, search: Seq<char>) -> Seq<usize> {
    matching(entries, lower_of(search), entries.len())
}

/// The indices of the entries of `items` that an already lower-cased query
/// finds, in increasing order.
pub fn filter_lowered<T: FinderItem>(items: &Vec<StageAble<T>>, query: &str) -> (r: Vec<usize>)
    ensures
        r@ == matching(items@, query@, items@.len()),
{
    let mut out: Vec<usize> = Vec::new();
    let mut i: usize = 0;
    while i < items.len()
        invariant
            i <= items@.len(),
            out@ == matching(items@, query@, i as nat),
        decreases items@.len() - i,
    {
        if items[i].data.search_include(query) {
            out.push(i);
        }
        i += 1;
    }
    out
}

/// The filtered view of `items` for `search`, as indices into `items`.
///
/// The entries it points at are those of `items` that the lower-cased search
/// finds, in their original order; the empty search keeps every entry.
pub fn filter_items<T: FinderItem>(items: &Vec<StageAble<T>>, search: &str) -> (r: Vec<usize>)
    ensures
        r@ == filtered(items@, search@),
        pick(items@, r@) == items@.filter(|s: StageAble<T>| s.data.found_by(lower_of(search@))),
        search@.len() == 0 ==> pick(items@, r@) == items@,
{
    let ghost text = search@;
    let len = items.len();
    let search = lowercase(search);
    proof {
        lemma_matching_is_filter(items@, search@, items@.len());
        assert(items@.take(items@.len() as int) =~= items@);
        if text.len() == 0 {
            assert(search@ =~= Seq::<char>::empty());
            lemma_empty_query_matches_all(items@, items@.len());
            assert(pick(items@, Seq::new(items@.len(), |k: int| k as usize)) =~= items@);
        }
    }
    filter_lowered(items, search.as_str())
}

proof fn lemma_matching_bounds<T: FinderItem>(entries: Seq<StageAble<T>>, query: Seq<char>, n: nat)
    requires
        n <= entries.len(),
    ensures
        forall|k: int| 0 <= k < matching(entries, query, n).len() ==> matching(entries, query, n)[k] < n,
        matching(entries, query, n).len() <= n,
    decreases n,
{
    if n > 0 {
        lemma_matching_bounds(entries, query, (n - 1) as nat);
    }
}

proof fn lemma_matching_is_filter<T: FinderItem>(entries: Seq<StageAble<T>>, query: Seq<char>, n: nat)
    requires
        n <= entries.len() <= usize::MAX,
    ensures
        pick(entries, matching(entries, query, n)) == entries.take(n as int).filter(
            |s: StageAble<T>| s.data.found_by(query),
        ),
    decreases n,
{
    let f = |s: StageAble<T>| s.data.found_by(query);
    if n == 0 {
        reveal(Seq::filter);
        assert(pick(entries, matching(entries, query, n)) =~= entries.take(0).filter(f));
    } else {
        let m = (n - 1) as nat;
        lemma_matching_is_filter(entries, query, m);
        lemma_matching_bounds(entries, query, m);
        assert(entries.take(n as int) =~= entries.take(m as int).push(entries[m as int]));
        entries.take(m as int).lemma_filter_push(entries[m as int], f);
        let before = matching(entries, query, m);
        assert(pick(entries, before.push(m as usize)) =~= pick(entries, before).push(entries[m as int]));
    }
}

proof fn lemma_empty_query_matches_all<T: FinderItem>(entries: Seq<StageAble<T>>, n: nat)
    requires
        n <= entries.len() <= usize::MAX,
    ensures
        matching(entries, Seq::empty(), n) == Seq::new(n, |k: int| k as usize),
    decreases n,
{
    if n > 0 {
        lemma_empty_query_matches_all(entries, (n - 1) as nat);
        entries[n - 1].data.lemma_empty_query_finds();
        assert(Seq::new(n, |k: int| k as usize) =~= Seq::new((n - 1) as nat, |k: int| k as usize).push(
            (n - 1) as usize,
        ));
    }
}

/// `line` shows `text` emphasized: set in green; or, where the environment
/// turns colours off (`NO_COLOR`), between two plain style sequences; or,
/// on a Windows console without ANSI support, where the styling is applied
/// through the console API instead of written out, as an empty line.
pub open spec fn emphasized(line: Seq<char>, text: Seq<char>) -> bool {
    ||| line == "\x1b[38;5;10m"@ + text + "\x1b[39m"@
    ||| line == "\x1b[m"@ + text + "\x1b[m"@
    ||| line.len() == 0
}

/// Relies on crossterm's `Stylize::green` and the `Display` of the styled
/// content: a set-foreground sequence for green, the text, and a reset of the
/// foreground; each sequence comes out empty when `NO_COLOR` is set. On a
/// Windows console without ANSI support nothing is written at all.
#[verifier::external_body]
fn emphasize(text: &str) -> (r: String)
    ensures
        emphasized(r@, text@),
{
    text.green().to_string()
}

/// The row at position `k` of a rendered view whose hovered position is `selected`.
pub open spec fn row_ok<T: FinderItem>(line: Seq<char>, entry: StageAble<T>, k: int, selected: int) -> bool {
    if k == selected {
        emphasized(line, row_text(entry))
    } else {
        line == row_text(entry)
    }
}

/// One line per row of the view, the hovered one emphasized.
pub fn render_items<T: FinderItem>(items: &Vec<StageAble<T>>, view: &Vec<usize>, selected: usize) -> (r: Vec<String>)
    requires
        forall|k: int| 0 <= k < view@.len() ==> view@[k] < items@.len(),
    ensures
        r@.len() == view@.len(),
        forall|k: int|
            0 <= k < view@.len() ==> row_ok(#[trigger] r@[k]@, items@[view@[k] as int], k, selected as int),
{
    let mut out: Vec<String> = Vec::new();
    let mut k: usize = 0;
    while k < view.len()
        invariant
            k <= view@.len(),
            out@.len() == k,
            forall|k: int| 0 <= k < view@.len() ==> view@[k] < items@.len(),
            forall|j: int| 0 <= j < k ==> row_ok(#[trigger] out@[j]@, items@[view@[j] as int], j, selected as int),
        decreases view@.len() - k,
    {
        let line = items[view[k]].to_string();
        if k == selected {
            out.push(emphasize(line.as_str()));
        } else {
            out.push(line);
        }
        k += 1;
    }
    out
}

/// The fixed help line shown at the bottom.
pub open spec fn usage_text() -> Seq<char> {
    "Usage: <Esc>: Close, <Enter>: Edit and close, <space>: Stage author, arrow up/down: Move hover, Ctrl-r: Remove all checkmarks"@
}

/// The whole picture: the search line, one line per row of the view, and the
/// help line last.
pub fn render_canvas<T: FinderItem>(search: &str, selected: usize, items: &Vec<StageAble<T>>, view: &Vec<usize>) -> (r: Vec<String>)
    requires
        forall|k: int| 0 <= k < view@.len() ==> view@[k] < items@.len(),
    ensures
        r@.len() == view@.len() + 2,
        r@[0]@ == "Search: "@ + search@,
        forall|k: int|
            0 <= k < view@.len() ==> row_ok(#[trigger] r@[k + 1]@, items@[view@[k] as int], k, selected as int),
        r@.last()@ == usage_text(),
{
    let mut head = String::from_str("Search: ");
    head.append(search);
    let mut out: Vec<String> = Vec::new();
    out.push(head);
    let rows = render_items(items, view, selected);
    let mut k: usize = 0;
    while k < rows.len()
        invariant
            k <= rows@.len(),
            out@.len() == k + 1,
            out@[0]@ == "Search: "@ + search@,
            forall|j: int| 0 <= j < k ==> #[trigger] out@[j + 1] == rows@[j],
        decreases rows@.len() - k,
    {
        out.push(rows[k].clone());
        k += 1;
    }
    out.push(String::from_str("Usage: <Esc>: Close, <Enter>: Edit and close, <space>: Stage author, arrow up/down: Move hover, Ctrl-r: Remove all checkmarks"));
    assert forall|k: int| 0 <= k < view@.len() implies row_ok(#[trigger] out@[k + 1]@, items@[view@[k] as int], k, selected as int) by {
        assert(out@[k + 1] == rows@[k]);
    }
    out
}

/// Where a picking session stands.
#[derive(Clone, Copy, Debug, PartialEq, Eq, Structural)]
pub enum Outcome {
    Undecided,
    Confirmed,
    Cancelled,
}

/// A key press, as far as the picker tells keys apart.
#[derive(Clone, Copy, Debug, PartialEq, Eq, Structural)]
pub enum Key {
    Esc,
    Enter,
    /// A character key, with whether Control was held.
    Char { code: char, control: bool },
    Backspace,
    Up,
    Down,
    /// Any other key; it is ignored.
    Other,
}

/// The abstract state of a picking session.
pub struct PickerView<T> {
    /// The full list, in input order, with the staged flags.
    pub entries: Seq<StageAble<T>>,
    /// The search text typed so far.
    pub query: Seq<char>,
    /// The highlighted row of the filtered view.
    pub hover: int,
    pub outcome: Outcome,
}

/// The filtered view of a state, as indices into its entries.
pub open spec fn shown<T: FinderItem>(v: PickerView<T>) -> Seq<usize> {
    filtered(v.entries, v.query)
}

/// `hover` kept on a row of a view of `len` rows, or 0 when it is empty.
pub open spec fn clamp(hover: int, len: int) -> int {
    if len <= 0 {
        0
    } else if hover > len - 1 {
        len - 1
    } else {
        hover
    }
}

/// The hover stands on a row of the filtered view, or at 0 when it is empty.
pub open spec fn hover_in_bounds<T: FinderItem>(v: PickerView<T>) -> bool {
    0 <= v.hover <= if shown(v).len() == 0 { 0 } else { shown(v).len() - 1 }
}

/// The entries with the flag of every entry that is the same item as `d` flipped.
pub open spec fn toggled<T: FinderItem>(entries: Seq<StageAble<T>>, d: T) -> Seq<StageAble<T>> {
    entries.map_values(
        |s: StageAble<T>|
            if s.data.same_as(&d) {
                StageAble { staged: !s.staged, data: s.data }
            } else {
                s
            },
    )
}

/// The entries with every flag cleared.
pub open spec fn cleared<T>(entries: Seq<StageAble<T>>) -> Seq<StageAble<T>> {
    entries.map_values(|s: StageAble<T>| StageAble { staged: false, data: s.data })
}

/// A state with a new query, the hover clamped to the view that it gives.
pub open spec fn with_query<T: FinderItem>(v: PickerView<T>, query: Seq<char>) -> PickerView<T> {
    PickerView {
        entries: v.entries,
        query,
        hover: clamp(v.hover, filtered(v.entries, query).len() as int),
        outcome: v.outcome,
    }
}

/// The state after one key press. Once the outcome is decided, keys change nothing.
///
/// Esc cancels and Enter confirms. Ctrl-R clears every flag. Space flips the
/// flag of each entry that is the same item as the hovered row, if there is
/// one. Any other character extends the query, and Backspace shortens it;
/// after either the hover is kept within the new filtered view. Up and Down
/// move the hover within the view; other keys do nothing.
pub open spec fn step<T: FinderItem>(v: PickerView<T>, key: Key) -> PickerView<T> {
    if v.outcome != Outcome::Undecided {
        v
    } else {
        match key {
            Key::Esc => PickerView {
                entries: v.entries,
                query: v.query,
                hover: v.hover,
                outcome: Outcome::Cancelled,
            },
            Key::Enter => PickerView {
                entries: v.entries,
                query: v.query,
                hover: v.hover,
                outcome: Outcome::Confirmed,
            },
            Key::Char { code, control } => {
                if control && code == 'r' {
                    PickerView {
                        entries: cleared(v.entries),
                        query: v.query,
                        hover: v.hover,
                        outcome: v.outcome,
                    }
                } else if code == ' ' {
                    if 0 <= v.hover < shown(v).len() {
                        PickerView {
                            entries: toggled(v.entries, v.entries[shown(v)[v.hover] as int].data),
                            query: v.query,
                            hover: v.hover,
                            outcome: v.outcome,
                        }
                    } else {
                        v
                    }
                } else {
                    with_query(v, v.query.push(code))
                }
            },
            Key::Backspace => if v.query.len() == 0 {
                v
            } else {
                with_query(v, v.query.drop_last())
            },
            Key::Up => PickerView {
                entries: v.entries,
                query: v.query,
                hover: if v.hover > 0 { v.hover - 1 } else { 0 },
                outcome: v.outcome,
            },
            Key::Down => PickerView {
                entries: v.entries,
                query: v.query,
                hover: if v.hover + 1 < shown(v).len() { v.hover + 1 } else { v.hover },
                outcome: v.outcome,
            },
            Key::Other => v,
        }
    }
}

/// The state after a sequence of key presses.
pub open spec fn run<T: FinderItem>(v: PickerView<T>, keys: Seq<Key>) -> PickerView<T>
    decreases keys.len(),
{
    if keys.len() == 0 {
        v
    } else {
        run(step(v, keys[0]), keys.drop_first())
    }
}

/// The items of the entries whose flag is set, in order.
pub open spec fn staged_items<T>(entries: Seq<StageAble<T>>) -> Seq<T> {
    entries.filter(|s: StageAble<T>| s.staged).map_values(|s: StageAble<T>| s.data)
}

proof fn lemma_staged_items_push<T>(entries: Seq<StageAble<T>>, x: StageAble<T>)
    ensures
        staged_items(entries.push(x)) == if x.staged {
            staged_items(entries).push(x.data)
        } else {
            staged_items(entries)
        },
{
    let pred = |s: StageAble<T>| s.staged;
    entries.lemma_filter_push(x, pred);
    if x.staged {
        assert(entries.filter(pred).push(x).map_values(|s: StageAble<T>| s.data) =~= entries.filter(
            pred,
        ).map_values(|s: StageAble<T>| s.data).push(x.data));
    }
}

/// What a finished session hands back: the staged items when confirmed,
/// nothing when cancelled.
pub open spec fn picked<T>(v: PickerView<T>) -> Option<Seq<T>> {
    if v.outcome == Outcome::Confirmed {
        Some(staged_items(v.entries))
    } else {
        None
    }
}

/// The start state for a list of items: each flag from the item itself.
pub open spec fn start<T: FinderItem>(input: Seq<T>) -> PickerView<T> {
    PickerView {
        entries: input.map_values(|d: T| StageAble { staged: d.starts_staged(), data: d }),
        query: Seq::empty(),
        hover: 0,
        outcome: Outcome::Undecided,
    }
}

/// A picking session over items of type `T`.
pub struct Finder<T> {
    items: Vec<StageAble<T>>,
    search: String,
    view: Vec<usize>,
    hover: usize,
    outcome: Outcome,
}

impl<T> View for Finder<T> {
    type V = PickerView<T>;

    closed spec fn view(&self) -> PickerView<T> {
        PickerView {
            entries: self.items@,
            query: self.search@,
            hover: self.hover as int,
            outcome: self.outcome,
        }
    }
}

impl<T: FinderItem> Finder<T> {
    /// The session is consistent: the cached filtered view is that of the
    /// state, and the hover stands within it.
    pub closed spec fn wf(&self) -> bool {
        &&& self.view@ == shown(self@)
        &&& hover_in_bounds(self@)
    }

    /// A session over `input`, nothing typed, the first row highlighted; the
    /// filtered view shows the whole list.
    pub fn new(input: Vec<T>) -> (r: Finder<T>)
        ensures
            r.wf(),
            r@ == start(input@),
            pick(r@.entries, shown(r@)) == r@.entries,
    {
        let ghost orig = input@;
        let mut input = input;
        let mut items: Vec<StageAble<T>> = Vec::new();
        while input.len() > 0
            invariant
                input@ == orig.subrange(items@.len() as int, orig.len() as int),
                items@ == orig.take(items@.len() as int).map_values(
                    |d: T| StageAble { staged: d.starts_staged(), data: d },
                ),
                items@.len() <= orig.len(),
            decreases input@.len(),
        {
            let d = input.remove(0);
            let staged = d.initial_seleted();
            let ghost k = items@.len() as int;
            items.push(StageAble { staged, data: d });
            proof {
                assert(orig.take(k + 1) =~= orig.take(k).push(orig[k]));
                assert(input@ =~= orig.subrange(k + 1, orig.len() as int));
                assert(items@ =~= orig.take(k + 1).map_values(
                    |d: T| StageAble { staged: d.starts_staged(), data: d },
                ));
            }
        }
        proof {
            assert(orig.take(orig.len() as int) =~= orig);
        }
        let search = String::new();
        let view = filter_items(&items, search.as_str());
        let r = Finder { items, search, view, hover: 0, outcome: Outcome::Undecided };
        assert(r@.entries =~= start(orig).entries);
        r
    }

    /// The highlighted row of the filtered view.
    pub fn hover(&self) -> (r: usize)
        ensures
            r == self@.hover,
    {
        self.hover
    }

    /// The filtered view, as indices into the full list.
    pub fn filtered_view(&self) -> (r: &Vec<usize>)
        requires
            self.wf(),
        ensures
            r@ == shown(self@),
    {
        &self.view
    }

    /// The full list with its staged flags.
    pub fn entries(&self) -> (r: &Vec<StageAble<T>>)
        ensures
            r@ == self@.entries,
    {
        &self.items
    }

    /// The search text typed so far.
    pub fn query(&self) -> (r: &str)
        ensures
            r@ == self@.query,
    {
        self.search.as_str()
    }

    /// The outcome so far.
    pub fn outcome(&self) -> (r: Outcome)
        ensures
            r == self@.outcome,
    {
        self.outcome
    }

    /// Recomputes the filtered view and keeps the hover within it.
    fn refresh(&mut self)
        ensures
            final(self)@ == with_query(old(self)@, old(self)@.query),
            final(self).wf(),
    {
        self.view = filter_items(&self.items, self.search.as_str());
        let len = self.view.len();
        if len == 0 {
            self.hover = 0;
        } else if self.hover > len - 1 {
            self.hover = len - 1;
        }
    }

    /// Flips the flag of every entry that is the same item as the hovered one.
    fn toggle_hovered(&mut self)
        requires
            old(self).wf(),
            old(self).hover < old(self).view@.len(),
        ensures
            final(self).wf(),
            final(self)@.entries == toggled(
                old(self)@.entries,
                old(self)@.entries[old(self).view@[old(self).hover as int] as int].data,
            ),
            final(self)@.query == old(self)@.query,
            final(self)@.hover == old(self)@.hover,
            final(self)@.outcome == old(self)@.outcome,
    {
        let h = self.view[self.hover];
        proof {
            lemma_matching_bounds(self.items@, lower_of(self.search@), self.items@.len());
        }
        let ghost d = self.items@[h as int].data;
        let ghost before = self.items@;
        let mut i: usize = 0;
        while i < self.items.len()
            invariant
                h < before.len(),
                self.items@.len() == before.len(),
                i <= before.len(),
                self.items@[h as int].data == d,
                forall|k: int| 0 <= k < i ==> #[trigger] self.items@[k] == toggled(before, d)[k],
                forall|k: int| i <= k < before.len() ==> #[trigger] self.items@[k] == before[k],
                self.search@ == old(self).search@,
                self.view@ == old(self).view@,
                self.hover == old(self).hover,
                self.outcome == old(self).outcome,
            decreases before.len() - i,
        {
            if self.items[i].data.same_item(&self.items[h].data) {
                let flag = self.items[i].staged;
                self.items[i].staged = !flag;
            }
            i += 1;
        }
        proof {
            assert(self.items@ =~= toggled(before, d));
            lemma_matching_same_items(before, self.items@, lower_of(self.search@), before.len());
        }
    }

    /// Clears every flag.
    fn clear_all(&mut self)
        requires
            old(self).wf(),
        ensures
            final(self).wf(),
            final(self)@.entries == cleared(old(self)@.entries),
            final(self)@.query == old(self)@.query,
            final(self)@.hover == old(self)@.hover,
            final(self)@.outcome == old(self)@.outcome,
    {
        let ghost before = self.items@;
        let mut i: usize = 0;
        while i < self.items.len()
            invariant
                self.items@.len() == before.len(),
                i <= before.len(),
                forall|k: int| 0 <= k < i ==> #[trigger] self.items@[k] == cleared(before)[k],
                forall|k: int| i <= k < before.len() ==> #[trigger] self.items@[k] == before[k],
                self.search@ == old(self).search@,
                self.view@ == old(self).view@,
                self.hover == old(self).hover,
                self.outcome == old(self).outcome,
            decreases before.len() - i,
        {
            self.items[i].staged = false;
            i += 1;
        }
        proof {
            assert(self.items@ =~= cleared(before));
            lemma_matching_same_items(before, self.items@, lower_of(self.search@), before.len());
        }
    }

    /// Applies one key press.
    pub fn handle(&mut self, key: Key)
        requires
            old(self).wf(),
        ensures
            final(self).wf(),
            final(self)@ == step(old(self)@, key),
    {
        if self.outcome != Outcome::Undecided {
            return;
        }
        match key {
            Key::Esc => {
                self.outcome = Outcome::Cancelled;
            },
            Key::Enter => {
                self.outcome = Outcome::Confirmed;
            },
            Key::Char { code, control } => {
                if control && code == 'r' {
                    self.clear_all();
                } else if code == ' ' {
                    if self.hover < self.view.len() {
                        self.toggle_hovered();
                    }
                } else {
                    push_char(&mut self.search, code);
                    self.refresh();
                }
            },
            Key::Backspace => {
                if pop_char(&mut self.search).is_some() {
                    self.refresh();
                }
            },
            Key::Up => {
                if self.hover > 0 {
                    self.hover = self.hover - 1;
                }
            },
            Key::Down => {
                if self.view.len() > 0 && self.hover < self.view.len() - 1 {
                    self.hover = self.hover + 1;
                }
            },
            Key::Other => {},
        }
    }

    /// What the session hands back once decided: the staged items of the
    /// full list, in input order, when confirmed; `None` when cancelled.
    pub fn into_result(self) -> (r: Option<Vec<T>>)
        requires
            self@.outcome != Outcome::Undecided,
        ensures
            match r {
                Some(out) => picked(self@) == Some(out@),
                None => picked(self@) is None,
            },
    {
        if self.outcome != Outcome::Confirmed {
            return None;
        }
        let ghost orig = self.items@;
        let mut items = self.items;
        let mut out: Vec<T> = Vec::new();
        while items.len() > 0
            invariant
                items@.len() <= orig.len(),
                items@ == orig.subrange(orig.len() - items@.len(), orig.len() as int),
                out@ == staged_items(orig.take(orig.len() - items@.len())),
            decreases items@.len(),
        {
            let ghost k = orig.len() - items@.len();
            let entry = items.remove(0);
            proof {
                assert(orig.take(k + 1) =~= orig.take(k).push(orig[k]));
                lemma_staged_items_push(orig.take(k), orig[k]);
                assert(items@ =~= orig.subrange(k + 1, orig.len() as int));
            }
            if entry.staged {
                out.push(entry.data);
            }
        }
        proof {
            assert(orig.take(orig.len() as int) =~= orig);
        }
        Some(out)
    }

    /// The picture of the current state.
    pub fn render(&self) -> (r: Vec<String>)
        requires
            self.wf(),
        ensures
            r@.len() == shown(self@).len() + 2,
            r@[0]@ == "Search: "@ + self@.query,
            forall|k: int|
                0 <= k < shown(self@).len() ==> row_ok(
                    #[trigger] r@[k + 1]@,
                    self@.entries[shown(self@)[k] as int],
                    k,
                    self@.hover,
                ),
            r@.last()@ == usage_text(),
    {
        proof {
            lemma_matching_bounds(self.items@, lower_of(self.search@), self.items@.len());
        }
        render_canvas(self.search.as_str(), self.hover, &self.items, &self.view)
    }
}

/// The items of the entries, flags left aside.
pub open spec fn items_of<T>(entries: Seq<StageAble<T>>) -> Seq<T> {
    entries.map_values(|s: StageAble<T>| s.data)
}

proof fn lemma_step_keeps_items<T: FinderItem>(v: PickerView<T>, key: Key)
    ensures
        items_of(step(v, key).entries) == items_of(v.entries),
        shown(step(v, key)) == filtered(v.entries, step(v, key).query),
{
    let w = step(v, key);
    assert(items_of(w.entries) =~= items_of(v.entries));
    assert forall|k: int| 0 <= k < v.entries.len() implies #[trigger] v.entries[k].data == w.entries[k].data by {
        assert(items_of(w.entries)[k] == items_of(v.entries)[k]);
    }
    lemma_matching_same_items(v.entries, w.entries, lower_of(w.query), v.entries.len());
}

/// Flipping the flags of one item twice gives back the entries unchanged.
pub proof fn lemma_toggled_twice<T: FinderItem>(entries: Seq<StageAble<T>>, d: T)
    ensures
        toggled(toggled(entries, d), d) == entries,
{
    assert(toggled(toggled(entries, d), d) =~= entries);
}

/// Pressing Space twice in a row leaves the session as it was: the flags of
/// the hovered item are flipped and flipped back.
pub proof fn lemma_toggle_twice_restores<T: FinderItem>(v: PickerView<T>, control: bool)
    ensures
        step(step(v, Key::Char { code: ' ', control }), Key::Char { code: ' ', control }) == v,
{
    let key = Key::Char { code: ' ', control };
    let w = step(v, key);
    lemma_step_keeps_items(v, key);
    if v.outcome == Outcome::Undecided && 0 <= v.hover < shown(v).len() {
        lemma_matching_bounds(v.entries, lower_of(v.query), v.entries.len());
        let d = v.entries[shown(v)[v.hover] as int].data;
        assert(w.entries[shown(v)[v.hover] as int].data == d);
        lemma_toggled_twice(v.entries, d);
    }
}

proof fn lemma_step_hover_in_bounds<T: FinderItem>(v: PickerView<T>, key: Key)
    requires
        hover_in_bounds(v),
    ensures
        hover_in_bounds(step(v, key)),
{
    lemma_step_keeps_items(v, key);
}

/// Whatever keys are pressed, the hover stays on a row of the filtered view,
/// or at 0 while the view is empty.
pub proof fn lemma_hover_stays_in_bounds<T: FinderItem>(v: PickerView<T>, keys: Seq<Key>)
    requires
        hover_in_bounds(v),
    ensures
        hover_in_bounds(run(v, keys)),
    decreases keys.len(),
{
    if keys.len() > 0 {
        lemma_step_hover_in_bounds(v, keys[0]);
        lemma_hover_stays_in_bounds(step(v, keys[0]), keys.drop_first());
    }
}

/// A new session starts with the hover in bounds.
pub proof fn lemma_start_in_bounds<T: FinderItem>(input: Seq<T>)
    ensures
        hover_in_bounds(start(input)),
{
}

proof fn lemma_staged_items_from<T>(entries: Seq<StageAble<T>>, x: T)
    requires
        staged_items(entries).contains(x),
    ensures
        items_of(entries).contains(x),
{
    let pred = |s: StageAble<T>| s.staged;
    let f = entries.filter(pred);
    let i = choose|i: int| 0 <= i < staged_items(entries).len() && staged_items(entries)[i] == x;
    f.lemma_filter_len(pred);
    entries.lemma_filter_contains_rev(pred, f[i]);
    let k = choose|k: int| 0 <= k < entries.len() && entries[k] == f[i];
    assert(items_of(entries)[k] == x);
}

/// Enter hands back exactly the staged items of the full list, in order,
/// whatever the query hides; each of them is an item of the list.
pub proof fn lemma_confirm_returns_staged<T: FinderItem>(v: PickerView<T>)
    requires
        v.outcome == Outcome::Undecided,
    ensures
        picked(step(v, Key::Enter)) == Some(staged_items(v.entries)),
        forall|x: T| staged_items(v.entries).contains(x) ==> items_of(v.entries).contains(x),
{
    assert forall|x: T| staged_items(v.entries).contains(x) implies items_of(v.entries).contains(x) by {
        lemma_staged_items_from(v.entries, x);
    }
}

proof fn lemma_run_keeps_items<T: FinderItem>(v: PickerView<T>, keys: Seq<Key>)
    ensures
        items_of(run(v, keys).entries) == items_of(v.entries),
    decreases keys.len(),
{
    if keys.len() > 0 {
        lemma_step_keeps_items(v, keys[0]);
        lemma_run_keeps_items(step(v, keys[0]), keys.drop_first());
    }
}

/// Whatever keys are pressed, a session hands back only items of its input.
pub proof fn lemma_picked_from_input<T: FinderItem>(input: Seq<T>, keys: Seq<Key>)
    ensures
        match picked(run(start(input), keys)) {
            Some(out) => forall|x: T| out.contains(x) ==> input.contains(x),
            None => true,
        },
{
    let w = run(start(input), keys);
    lemma_run_keeps_items(start(input), keys);
    assert(items_of(start(input).entries) =~= input);
    assert forall|x: T| staged_items(w.entries).contains(x) implies input.contains(x) by {
        lemma_staged_items_from(w.entries, x);
    }
}

/// Esc ends the session with nothing handed back, while Enter ends it with a
/// list, even an empty one.
pub proof fn lemma_cancel_is_not_empty_confirm<T: FinderItem>(v: PickerView<T>)
    requires
        v.outcome == Outcome::Undecided,
    ensures
        step(v, Key::Esc).outcome == Outcome::Cancelled,
        picked(step(v, Key::Esc)) is None,
        step(v, Key::Enter).outcome == Outcome::Confirmed,
        picked(step(v, Key::Enter)) is Some,
{
}

/// Ctrl-R clears the flag of every entry of the full list, rows hidden by
/// the query included, and changes nothing else.
pub proof fn lemma_reset_clears_all<T: FinderItem>(v: PickerView<T>)
    requires
        v.outcome == Outcome::Undecided,
    ensures
        step(v, Key::Char { code: 'r', control: true }).entries.len() == v.entries.len(),
        forall|k: int|
            0 <= k < v.entries.len() ==> !(#[trigger] step(v, Key::Char { code: 'r', control: true }).entries[k]).staged,
        items_of(step(v, Key::Char { code: 'r', control: true }).entries) == items_of(v.entries),
        step(v, Key::Char { code: 'r', control: true }).query == v.query,
        step(v, Key::Char { code: 'r', control: true }).hover == v.hover,
{
    lemma_step_keeps_items(v, Key::Char { code: 'r', control: true });
}

} // verus!
