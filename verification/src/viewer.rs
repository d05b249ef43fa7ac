//! The viewer's decisions, apart from drawing: navigation history, tabs,
//! link / search-hit / outline selection, two-key sequences and the key
//! map. The window, scrolling and rendering call these and carry out what
//! they decide.

use vstd::prelude::*;

use crate::annotate::{Annotation, Kind};
use crate::markdown::DocumentLink;
use crate::text::{decimal, push_decimal, push_str};

verus! {

// ---------------------------------------------------------------------------
// Cycling selections (links, search hits)
// ---------------------------------------------------------------------------

/// The next position of a cyclic selection over `n > 0` items: the first
/// item when nothing is selected, wrapping after the last.
pub open spec fn next_cyclic(cur: Option<usize>, n: nat) -> Option<usize> {
    match cur {
        Some(i) => Some(((i + 1) % (n as int)) as usize),
        None => Some(0),
    }
}

/// The previous position of a cyclic selection over `n > 0` items: the last
/// item when nothing or the first is selected.
pub open spec fn prev_cyclic(cur: Option<usize>, n: nat) -> Option<usize> {
    match cur {
        Some(i) => if i == 0 {
            Some((n - 1) as usize)
        } else {
            Some((i - 1) as usize)
        },
        None => Some((n - 1) as usize),
    }
}

/// Moves a cyclic selection forward (Tab over links, `n` over search hits).
pub fn cycle_next(cur: Option<usize>, n: usize) -> (r: Option<usize>)
    requires
        n > 0,
    ensures
        r == next_cyclic(cur, n as nat),
{
    match cur {
        Some(i) => {
            if i >= n - 1 {
                assert((i - (n - 1)) as int % (n as int) == (i + 1) % (n as int)) by (nonlinear_arith)
                    requires
                        i >= n - 1,
                        n > 0,
                {
                    assert(i + 1 == (i - (n - 1)) + n);
                }
                Some((i - (n - 1)) % n)
            } else {
                assert((i + 1) % (n as int) == i + 1) by (nonlinear_arith)
                    requires
                        i + 1 < n,
                ;
                Some(i + 1)
            }
        },
        None => Some(0),
    }
}

/// Moves a cyclic selection backward (Shift-Tab, `p`).
pub fn cycle_prev(cur: Option<usize>, n: usize) -> (r: Option<usize>)
    requires
        n > 0,
    ensures
        r == prev_cyclic(cur, n as nat),
{
    match cur {
        Some(0) => Some(n - 1),
        Some(i) => Some(i - 1),
        None => Some(n - 1),
    }
}

/// Forward then backward, or backward then forward, returns to the same
/// item of a cyclic selection.
pub proof fn cycle_next_prev_inverse(i: usize, n: nat)
    requires
        i < n,
        n <= usize::MAX,
    ensures
        prev_cyclic(next_cyclic(Some(i), n), n) == Some(i),
        next_cyclic(prev_cyclic(Some(i), n), n) == Some(i),
{
    if i + 1 == n {
        assert((i + 1) % (n as int) == 0) by (nonlinear_arith)
            requires
                i + 1 == n,
                n > 0,
        ;
    } else {
        assert((i + 1) % (n as int) == i + 1) by (nonlinear_arith)
            requires
                i + 1 < n,
        ;
    }
    if i == 0 {
        assert((n - 1 + 1) % (n as int) == 0) by (nonlinear_arith)
            requires
                n > 0,
        ;
    } else {
        assert((i - 1 + 1) % (n as int) == i) by (nonlinear_arith)
            requires
                0 < i < n,
        ;
    }
}

/// What Enter does in the document.
#[derive(Debug, Clone, Copy, PartialEq, Eq, Structural)]
pub enum Activation {
    /// Follow the link at this index of the document's links.
    FollowLink(usize),
    /// Make this search hit current (and scroll to it).
    NextHit(usize),
    /// Nothing to do.
    Nothing,
}

/// Enter follows the focused link, if any; otherwise, with search hits, it
/// moves to the next hit; otherwise it does nothing.
pub open spec fn activation(focused_link: Option<usize>, hits: nat, current_hit: Option<usize>) -> Activation {
    match focused_link {
        Some(i) => Activation::FollowLink(i),
        None => if hits > 0 {
            Activation::NextHit(next_cyclic(current_hit, hits)->0)
        } else {
            Activation::Nothing
        },
    }
}

/// Enter follows the focused link whenever there is one; otherwise, with
/// search hits, it moves to the hit after the current one (the first when
/// there is none, wrapping after the last); with neither it does nothing.
pub proof fn enter_follows_link_or_advances_hit(focused_link: Option<usize>, hits: nat, current_hit: Option<usize>)
    requires
        hits <= usize::MAX,
        current_hit matches Some(i) ==> i < hits,
    ensures
        focused_link matches Some(i) ==> activation(focused_link, hits, current_hit)
            == Activation::FollowLink(i),
        focused_link is None && hits == 0 ==> activation(focused_link, hits, current_hit)
            == Activation::Nothing,
        focused_link is None && hits > 0 && current_hit is None ==> activation(
            focused_link,
            hits,
            current_hit,
        ) == Activation::NextHit(0),
        forall|i: usize|
            focused_link is None && current_hit == Some(i) && i + 1 < hits ==> activation(
                focused_link,
                hits,
                current_hit,
            ) == Activation::NextHit((i + 1) as usize),
        forall|i: usize|
            focused_link is None && current_hit == Some(i) && i + 1 == hits ==> activation(
                focused_link,
                hits,
                current_hit,
            ) == Activation::NextHit(0),
{
    if let Some(i) = current_hit {
        if i + 1 < hits {
            assert((i + 1) % (hits as int) == i + 1) by (nonlinear_arith)
                requires
                    i + 1 < hits,
            ;
        } else if i + 1 == hits {
            assert((i + 1) % (hits as int) == 0) by (nonlinear_arith)
                requires
                    i + 1 == hits,
                    hits > 0,
            ;
        }
    }
}

/// Decides what Enter does, given the focused link, the number of search
/// hits and the current hit.
pub fn activate(focused_link: Option<usize>, hits: usize, current_hit: Option<usize>) -> (r: Activation)
    ensures
        r == activation(focused_link, hits as nat, current_hit),
{
    match focused_link {
        Some(i) => Activation::FollowLink(i),
        None => if hits > 0 {
            match cycle_next(current_hit, hits) {
                Some(j) => Activation::NextHit(j),
                None => Activation::Nothing,
            }
        } else {
            Activation::Nothing
        },
    }
}

// ---------------------------------------------------------------------------
// Outline selection
// ---------------------------------------------------------------------------

/// The heading after the selected one, staying on the last; the first when
/// nothing is selected.
pub open spec fn outline_next(sel: Option<usize>, n: nat) -> Option<usize> {
    match sel {
        Some(i) => if i + 1 < n {
            Some((i + 1) as usize)
        } else {
            Some(i)
        },
        None => Some(0),
    }
}

/// The heading before the selected one, staying on the first.
pub open spec fn outline_prev(sel: Option<usize>) -> Option<usize> {
    match sel {
        Some(i) => if i == 0 {
            Some(0)
        } else {
            Some((i - 1) as usize)
        },
        None => Some(0),
    }
}

/// Moves the outline selection down (`j` in the outline).
pub fn sidebar_next(sel: Option<usize>, n: usize) -> (r: Option<usize>)
    ensures
        r == outline_next(sel, n as nat),
{
    match sel {
        Some(i) => if i < n && n - i > 1 {
            Some(i + 1)
        } else {
            Some(i)
        },
        None => Some(0),
    }
}

/// Moves the outline selection up (`k` in the outline).
pub fn sidebar_prev(sel: Option<usize>) -> (r: Option<usize>)
    ensures
        r == outline_prev(sel),
{
    match sel {
        Some(0) | None => Some(0),
        Some(i) => Some(i - 1),
    }
}

/// The outline entry showing at `current_line`: the last of the leading
/// entries whose line is at or above it (the first entry when none is).
pub open spec fn section_at(lines: Seq<usize>, current_line: nat) -> nat
    decreases lines.len(),
{
    if lines.len() == 0 || lines[0] > current_line {
        0
    } else if lines.len() == 1 || lines[1] > current_line {
        0
    } else {
        1 + section_at(lines.drop_first(), current_line)
    }
}

/// The outline entry showing when the top of the view is at
/// `current_line`, given the entries' lines in document order.
pub fn section_for_line(lines: &Vec<usize>, current_line: usize) -> (r: usize)
    ensures
        r as nat == section_at(lines@, current_line as nat),
        lines@.len() > 0 ==> r < lines@.len(),
{
    let mut best: usize = 0;
    let mut i: usize = 0;
    assert(lines@.skip(0) =~= lines@);
    while i < lines.len()
        invariant
            i <= lines@.len(),
            i == 0 ==> best == 0,
            i > 0 ==> best == i - 1,
            forall|j: int| 0 <= j < i ==> lines@[j] <= current_line,
            section_at(lines@, current_line as nat) == best + section_at(
                lines@.skip(best as int),
                current_line as nat,
            ),
        decreases lines@.len() - i,
    {
        if lines[i] <= current_line {
            proof {
                if i > 0 {
                    let t = lines@.skip(best as int);
                    assert(t[0] == lines@[best as int]);
                    assert(t[1] == lines@[i as int]);
                    assert(t.drop_first() =~= lines@.skip(i as int));
                }
            }
            best = i;
        } else {
            proof {
                if i > 0 {
                    let t = lines@.skip(best as int);
                    assert(t[1] == lines@[i as int]);
                } else {
                    assert(lines@.skip(0)[0] == lines@[0]);
                }
            }
            return best;
        }
        i = i + 1;
    }
    proof {
        if i > 0 {
            let t = lines@.skip(best as int);
            assert(t.len() == 1);
        } else {
            assert(lines@.skip(0).len() == 0);
        }
    }
    best
}

// ---------------------------------------------------------------------------
// Two-key sequences
// ---------------------------------------------------------------------------

/// What a completed two-key sequence asks for.
#[derive(Debug, Clone, Copy, PartialEq, Eq, Structural)]
pub enum KeySequence {
    /// Nothing (the first key of a pair, or a pair with no meaning).
    Nothing,
    /// `gg`: scroll to the top.
    ScrollToTop,
    /// `GG`: scroll to the bottom.
    ScrollToBottom,
    /// `qq` / `ZZ`: quit.
    Exit,
    /// two backticks: jump back to the last position.
    JumpToLastPosition,
    /// `gt`: the next tab.
    NextTab,
    /// `gT`: the previous tab.
    PrevTab,
}

/// The action of pressing a key twice.
pub open spec fn double_key_action(ch: char) -> KeySequence {
    if ch == 'g' {
        KeySequence::ScrollToTop
    } else if ch == 'G' {
        KeySequence::ScrollToBottom
    } else if ch == 'q' || ch == 'Z' {
        KeySequence::Exit
    } else if ch == '`' {
        KeySequence::JumpToLastPosition
    } else {
        KeySequence::Nothing
    }
}

/// The two-key sequence recogniser: `g` then `t` or `T` switches tabs; the
/// same key twice in a row completes its sequence; either way nothing stays
/// pending. Any other key becomes the pending one.
pub open spec fn press(pending: Option<char>, ch: char) -> (Option<char>, KeySequence) {
    if pending == Some('g') && ch == 't' {
        (None, KeySequence::NextTab)
    } else if pending == Some('g') && ch == 'T' {
        (None, KeySequence::PrevTab)
    } else if pending == Some(ch) {
        (None, double_key_action(ch))
    } else {
        (Some(ch), KeySequence::Nothing)
    }
}

/// Feeds a key into the two-key sequence recogniser.
pub fn press_pending_key(pending: Option<char>, ch: char) -> (r: (Option<char>, KeySequence))
    ensures
        r == press(pending, ch),
{
    let after_g = match pending {
        Some(p) => p == 'g',
        None => false,
    };
    if after_g && ch == 't' {
        return (None, KeySequence::NextTab);
    }
    if after_g && ch == 'T' {
        return (None, KeySequence::PrevTab);
    }
    let same = match pending {
        Some(p) => p == ch,
        None => false,
    };
    if same {
        let action = if ch == 'g' {
            KeySequence::ScrollToTop
        } else if ch == 'G' {
            KeySequence::ScrollToBottom
        } else if ch == 'q' || ch == 'Z' {
            KeySequence::Exit
        } else if ch == '`' {
            KeySequence::JumpToLastPosition
        } else {
            KeySequence::Nothing
        };
        (None, action)
    } else {
        (Some(ch), KeySequence::Nothing)
    }
}

/// Pressing a key twice performs its sequence and leaves nothing pending,
/// whatever was pending before, when the first press does not itself
/// complete a sequence; a single press only arms it.
pub proof fn double_press_performs(pending: Option<char>, ch: char)
    requires
        pending != Some(ch),
        !(pending == Some('g') && (ch == 't' || ch == 'T')),
    ensures
        press(pending, ch) == (Some(ch), KeySequence::Nothing),
        press(press(pending, ch).0, ch) == (None::<char>, double_key_action(ch)),
{
}

/// `g` then `t` switches to the next tab and `g` then `T` to the previous
/// one, leaving nothing pending, when `g` was not already pending.
pub proof fn g_then_t_switches_tabs(pending: Option<char>)
    requires
        pending != Some('g'),
    ensures
        press(press(pending, 'g').0, 't') == (None::<char>, KeySequence::NextTab),
        press(press(pending, 'g').0, 'T') == (None::<char>, KeySequence::PrevTab),
{
}

// ---------------------------------------------------------------------------
// Overlays
// ---------------------------------------------------------------------------

/// Which overlay panel is shown.
#[derive(Debug, Clone, Copy, PartialEq, Eq, Structural)]
pub enum OverlayKind {
    Hidden,
    Shortcuts,
    About,
    MermaidModal,
}

/// Toggling a panel: shown when another (or none) is, hidden when it is.
pub fn toggle_overlay(current: OverlayKind, panel: OverlayKind) -> (r: OverlayKind)
    ensures
        current == panel ==> r == OverlayKind::Hidden,
        current != panel ==> r == panel,
{
    if current == panel {
        OverlayKind::Hidden
    } else {
        panel
    }
}

// ---------------------------------------------------------------------------
// Outline sidebar visibility and focus
// ---------------------------------------------------------------------------

/// Visibility, focus and selection of the outline sidebar.
#[derive(Debug, Clone, Copy, PartialEq, Eq, Structural)]
pub struct SidebarState {
    pub open: bool,
    pub focused: bool,
    pub selected: Option<usize>,
}

/// Ctrl-B: closed → open, focused, on the section in view; open → closed
/// and unfocused. Returns whether the outline must scroll to the selection.
pub fn sidebar_toggle_visibility(s: SidebarState, section: Option<usize>) -> (r: (
    SidebarState,
    bool,
))
    ensures
        s.open ==> r == (SidebarState { open: false, focused: false, selected: s.selected }, false),
        !s.open ==> r == (SidebarState { open: true, focused: true, selected: section }, true),
{
    if s.open {
        (SidebarState { open: false, focused: false, selected: s.selected }, false)
    } else {
        (SidebarState { open: true, focused: true, selected: section }, true)
    }
}

/// `o`: closed → open, focused, on the section in view; open and unfocused
/// → focused on the section in view; focused → unfocused (still open).
pub fn sidebar_toggle_focus(s: SidebarState, section: Option<usize>) -> (r: (SidebarState, bool))
    ensures
        !s.open ==> r == (SidebarState { open: true, focused: true, selected: section }, true),
        s.open && !s.focused ==> r == (
            SidebarState { open: true, focused: true, selected: section },
            true,
        ),
        s.open && s.focused ==> r == (
            SidebarState { open: true, focused: false, selected: s.selected },
            false,
        ),
{
    if !s.open || !s.focused {
        (SidebarState { open: true, focused: true, selected: section }, true)
    } else {
        (SidebarState { open: true, focused: false, selected: s.selected }, false)
    }
}

// ---------------------------------------------------------------------------
// Navigation history
// ---------------------------------------------------------------------------

/// Browser-like navigation history: a non-empty list of entries and the
/// position of the current one, held as the entries before the current
/// one, the current one, and the entries after it.
pub struct NavHistory<T> {
    before: Vec<T>,
    current: T,
    after: Vec<T>,
}

impl<T> NavHistory<T> {
    /// The entries' number fits in a `usize`.
    #[verifier::type_invariant]
    spec fn wf(self) -> bool {
        self.before@.len() + self.after@.len() < usize::MAX
    }

    /// The entries.
    pub closed spec fn entries_view(self) -> Seq<T> {
        self.before@.push(self.current) + self.after@
    }

    /// The current position.
    pub closed spec fn index_view(self) -> nat {
        self.before@.len()
    }

    /// A history holding only `first`.
    pub fn new(first: T) -> (h: Self)
        ensures
            h.entries_view() == seq![first],
            h.index_view() == 0,
    {
        let h = NavHistory { before: Vec::new(), current: first, after: Vec::new() };
        assert(h.entries_view() =~= seq![first]);
        h
    }

    /// The current position.
    pub fn index(&self) -> (i: usize)
        ensures
            i == self.index_view(),
            i < self.entries_view().len(),
    {
        self.before.len()
    }

    /// Number of entries.
    pub fn len(&self) -> (n: usize)
        ensures
            n == self.entries_view().len(),
            n > 0,
    {
        proof {
            use_type_invariant(self);
        }
        self.before.len() + 1 + self.after.len()
    }

    /// The current entry.
    pub fn current(&self) -> (e: &T)
        ensures
            *e == self.entries_view()[self.index_view() as int],
    {
        &self.current
    }

    /// Moves the entries before and after the current one out, leaving
    /// only the current one.
    fn take_sides(&mut self) -> (r: (Vec<T>, Vec<T>))
        ensures
            r.0@ == old(self).before@,
            r.1@ == old(self).after@,
            final(self).before@ == Seq::<T>::empty(),
            final(self).after@ == Seq::<T>::empty(),
            final(self).current == old(self).current,
    {
        proof {
            use_type_invariant(&*self);
        }
        let mut b: Vec<T> = Vec::new();
        let mut f: Vec<T> = Vec::new();
        std::mem::swap(&mut b, &mut self.before);
        std::mem::swap(&mut f, &mut self.after);
        (b, f)
    }

    /// Puts entries before and after the current one back.
    fn put_sides(&mut self, b: Vec<T>, f: Vec<T>)
        requires
            old(self).before@ == Seq::<T>::empty(),
            old(self).after@ == Seq::<T>::empty(),
            b@.len() + f@.len() < usize::MAX,
        ensures
            final(self).before@ == b@,
            final(self).after@ == f@,
            final(self).current == old(self).current,
    {
        self.before = b;
        self.after = f;
    }

    /// Replaces the current entry (e.g. to record its scroll position).
    pub fn set_current(&mut self, e: T)
        ensures
            final(self).entries_view() == old(self).entries_view().update(
                old(self).index_view() as int,
                e,
            ),
            final(self).index_view() == old(self).index_view(),
    {
        proof {
            use_type_invariant(&*self);
        }
        let mut x = e;
        std::mem::swap(&mut x, &mut self.current);
        assert(self.entries_view() =~= old(self).entries_view().update(
            old(self).index_view() as int,
            e,
        ));
    }

    /// Pushes a new entry after the current one, dropping any forward
    /// history; the new entry becomes current.
    pub fn push(&mut self, e: T)
        requires
            old(self).entries_view().len() < usize::MAX,
        ensures
            final(self).entries_view() == old(self).entries_view().take(
                old(self).index_view() as int + 1,
            ).push(e),
            final(self).index_view() == old(self).index_view() as int + 1,
    {
        proof {
            use_type_invariant(&*self);
        }
        let (mut b, f) = self.take_sides();
        let mut x = e;
        std::mem::swap(&mut x, &mut self.current);
        b.push(x);
        self.put_sides(b, Vec::new());
        assert(self.entries_view() =~= old(self).entries_view().take(
            old(self).index_view() as int + 1,
        ).push(e));
    }

    /// Steps back, when there is an earlier entry.
    pub fn back(&mut self) -> (moved: bool)
        ensures
            final(self).entries_view() == old(self).entries_view(),
            moved == (old(self).index_view() > 0),
            final(self).index_view() == back_index(old(self).index_view()),
    {
        proof {
            use_type_invariant(&*self);
        }
        if self.before.len() == 0 {
            return false;
        }
        let (mut b, mut f) = self.take_sides();
        let mut x = b.pop().unwrap();
        std::mem::swap(&mut x, &mut self.current);
        f.insert(0, x);
        self.put_sides(b, f);
        assert(self.entries_view() =~= old(self).entries_view());
        true
    }

    /// Leaves the current entry backwards: when there is an earlier entry,
    /// `here` (the place being left, e.g. with its scroll position) replaces
    /// the current entry and the earlier one becomes current; otherwise
    /// nothing changes.
    pub fn leave_back(&mut self, here: T) -> (moved: bool)
        ensures
            moved == (old(self).index_view() > 0),
            moved ==> final(self).entries_view() == old(self).entries_view().update(
                old(self).index_view() as int,
                here,
            ),
            !moved ==> final(self).entries_view() == old(self).entries_view(),
            final(self).index_view() == back_index(old(self).index_view()),
    {
        if self.before.len() == 0 {
            false
        } else {
            self.set_current(here);
            self.back()
        }
    }

    /// Leaves the current entry forwards: when there is a later entry,
    /// `here` replaces the current entry and the later one becomes current;
    /// otherwise nothing changes.
    pub fn leave_forward(&mut self, here: T) -> (moved: bool)
        ensures
            moved == (old(self).index_view() + 1 < old(self).entries_view().len()),
            moved ==> final(self).entries_view() == old(self).entries_view().update(
                old(self).index_view() as int,
                here,
            ),
            !moved ==> final(self).entries_view() == old(self).entries_view(),
            final(self).index_view() == forward_index(
                old(self).index_view(),
                old(self).entries_view().len(),
            ),
    {
        if self.after.len() == 0 {
            false
        } else {
            self.set_current(here);
            self.forward()
        }
    }

    /// Steps forward, when there is a later entry.
    pub fn forward(&mut self) -> (moved: bool)
        ensures
            final(self).entries_view() == old(self).entries_view(),
            moved == (old(self).index_view() + 1 < old(self).entries_view().len()),
            final(self).index_view() == forward_index(
                old(self).index_view(),
                old(self).entries_view().len(),
            ),
    {
        proof {
            use_type_invariant(&*self);
        }
        if self.after.len() == 0 {
            return false;
        }
        let (mut b, mut f) = self.take_sides();
        let mut x = f.remove(0);
        std::mem::swap(&mut x, &mut self.current);
        b.push(x);
        self.put_sides(b, f);
        assert(self.entries_view() =~= old(self).entries_view());
        true
    }
}

/// The position after stepping back.
pub open spec fn back_index(i: nat) -> nat {
    if i > 0 {
        (i - 1) as nat
    } else {
        i
    }
}

/// The position after stepping forward in a history of `len` entries.
pub open spec fn forward_index(i: nat, len: nat) -> nat {
    if i + 1 < len {
        i + 1
    } else {
        i
    }
}

/// Going back then forward returns to the same entry when there was an
/// earlier one; going forward then back does when there was a later one.
/// After a push, going back returns to the entry pushed from.
pub proof fn history_back_forward(i: nat, len: nat)
    requires
        i < len,
    ensures
        i > 0 ==> forward_index(back_index(i), len) == i,
        i + 1 < len ==> back_index(forward_index(i, len)) == i,
        back_index(i + 1) == i,
{
}

// ---------------------------------------------------------------------------
// Tabs
// ---------------------------------------------------------------------------

/// The visual order of the open documents: the background ones with the
/// active one at its slot.
pub open spec fn visual_tabs<T>(background: Seq<T>, active: nat, current: T) -> Seq<T> {
    background.take(active as int).push(current) + background.skip(active as int)
}

/// Open documents other than the active one, in visual order, and the
/// visual slot of the active document (which the viewer holds itself).
pub struct TabStrip<T> {
    background: Vec<T>,
    active: usize,
}

/// What closing a tab asks of the viewer.
pub enum TabClose<T> {
    /// It was the only tab: quit.
    ExitApp,
    /// The active tab closed; this document becomes the active one.
    Promote(T),
    /// A background tab closed.
    Removed,
    /// No tab at that slot.
    Ignored,
}

impl<T> TabStrip<T> {
    /// The active slot is within the strip.
    #[verifier::type_invariant]
    spec fn wf(self) -> bool {
        self.active <= self.background@.len()
    }

    /// The background documents in visual order.
    pub closed spec fn background_view(self) -> Seq<T> {
        self.background@
    }

    /// The visual slot of the active document.
    pub closed spec fn active_view(self) -> nat {
        self.active as nat
    }

    /// Only one document open.
    pub fn new() -> (t: Self)
        ensures
            t.background_view() == Seq::<T>::empty(),
            t.active_view() == 0,
    {
        TabStrip { background: Vec::new(), active: 0 }
    }

    /// Visual slot of the active document.
    pub fn active(&self) -> (a: usize)
        ensures
            a == self.active_view(),
            a <= self.background_view().len(),
    {
        proof {
            use_type_invariant(self);
        }
        self.active
    }

    /// Number of open documents besides the active one.
    pub fn background_len(&self) -> (n: usize)
        ensures
            n == self.background_view().len(),
    {
        self.background.len()
    }

    /// The background documents in visual order.
    pub fn background(&self) -> (b: &Vec<T>)
        ensures
            b@ == self.background_view(),
    {
        &self.background
    }

    /// The visual slot of the background document at `vec_idx`.
    pub fn slot_of(&self, vec_idx: usize) -> (slot: usize)
        requires
            vec_idx < self.background_view().len(),
        ensures
            vec_idx < self.active_view() ==> slot == vec_idx,
            vec_idx >= self.active_view() ==> slot == vec_idx + 1,
    {
        let n = self.background.len();
        if vec_idx < self.active {
            vec_idx
        } else {
            vec_idx + 1
        }
    }

    /// Moves the background documents out, leaving an empty strip.
    fn take_background(&mut self) -> (bg: Vec<T>)
        ensures
            bg@ == old(self).background_view(),
            final(self).background_view() == Seq::<T>::empty(),
            final(self).active_view() == 0,
    {
        self.active = 0;
        let mut bg: Vec<T> = Vec::new();
        std::mem::swap(&mut bg, &mut self.background);
        bg
    }

    /// Puts background documents and an active slot back into an empty
    /// strip.
    fn put_background(&mut self, bg: Vec<T>, active: usize)
        requires
            old(self).active_view() == 0,
            active <= bg@.len(),
        ensures
            final(self).background_view() == bg@,
            final(self).active_view() == active,
    {
        self.background = bg;
        self.active = active;
    }

    /// Opens a new document at the end: the outgoing one (`saved`) keeps its
    /// slot and the new document becomes active in the last slot.
    pub fn open_new(&mut self, saved: T)
        ensures
            final(self).background_view() == old(self).background_view().insert(
                old(self).active_view() as int,
                saved,
            ),
            final(self).active_view() == old(self).background_view().len() + 1,
    {
        proof {
            use_type_invariant(&*self);
        }
        let a = self.active;
        let mut bg = self.take_background();
        bg.insert(a, saved);
        let n = bg.len();
        self.put_background(bg, n);
    }

    /// Whether `index` names another open document.
    pub fn can_switch(&self, index: usize) -> (b: bool)
        ensures
            b == (index != self.active_view() && index < self.background_view().len() + 1),
    {
        index != self.active && index <= self.background.len()
    }

    /// Switches to the document at visual slot `index`: the outgoing one
    /// (`saved`) goes back to its slot, and the document to show is returned.
    pub fn switch(&mut self, index: usize, saved: T) -> (incoming: T)
        requires
            index != old(self).active_view(),
            index < old(self).background_view().len() + 1,
        ensures
            final(self).active_view() == index,
            visual_tabs(final(self).background_view(), index as nat, incoming) == visual_tabs(
                old(self).background_view(),
                old(self).active_view(),
                saved,
            ),
    {
        proof {
            use_type_invariant(&*self);
        }
        let a = self.active;
        let ghost old_bg = self.background@;
        let mut bg = self.take_background();
        bg.insert(a, saved);
        let ghost full = bg@;
        assert(full =~= visual_tabs(old_bg, a as nat, saved));
        let incoming = bg.remove(index);
        assert(visual_tabs(bg@, index as nat, incoming) =~= full);
        self.put_background(bg, index);
        incoming
    }

    /// The slot after the active one, wrapping; `None` with a single tab.
    pub fn next_slot(&self) -> (r: Option<usize>)
        ensures
            self.background_view().len() == 0 ==> r is None,
            self.background_view().len() > 0 ==> r == Some(
                ((self.active_view() + 1) % (self.background_view().len() + 1)) as usize,
            ),
    {
        proof {
            use_type_invariant(self);
        }
        let n = self.background.len();
        if n == 0 {
            None
        } else if self.active == n {
            assert((n + 1) % (n + 1) as int == 0) by (nonlinear_arith)
                requires
                    n > 0,
            ;
            Some(0)
        } else {
            let a = self.active;
            assert((a + 1) % (n + 1) as int == a + 1) by (nonlinear_arith)
                requires
                    a < n,
            ;
            Some(self.active + 1)
        }
    }

    /// The slot before the active one, wrapping; `None` with a single tab.
    pub fn prev_slot(&self) -> (r: Option<usize>)
        ensures
            self.background_view().len() == 0 ==> r is None,
            self.background_view().len() > 0 && self.active_view() == 0 ==> r == Some(
                self.background_view().len() as usize,
            ),
            self.background_view().len() > 0 && self.active_view() > 0 ==> r == Some(
                (self.active_view() - 1) as usize,
            ),
    {
        let n = self.background.len();
        if n == 0 {
            None
        } else if self.active == 0 {
            Some(n)
        } else {
            Some(self.active - 1)
        }
    }

    /// Closes the document at visual slot `index`. The last open document
    /// quits; the active one is replaced by its right neighbour (its left one
    /// when it is last); a background one is removed. In every case the
    /// other documents keep their visual order.
    pub fn close(&mut self, index: usize) -> (r: TabClose<T>)
        ensures
            old(self).background_view().len() == 0 ==> r is ExitApp && *final(self) == *old(self),
            old(self).background_view().len() > 0 && index == old(self).active_view() ==> (
            r matches TabClose::Promote(x) && visual_tabs(
                final(self).background_view(),
                final(self).active_view(),
                x,
            ) == old(self).background_view()),
            old(self).background_view().len() > 0 && index == old(self).active_view()
                && old(self).active_view() < old(self).background_view().len() ==> r == TabClose::<
                T,
            >::Promote(old(self).background_view()[old(self).active_view() as int])
                && final(self).active_view() == old(self).active_view(),
            old(self).background_view().len() > 0 && index == old(self).active_view()
                && old(self).active_view() >= old(self).background_view().len() ==> r == TabClose::<
                T,
            >::Promote(old(self).background_view()[old(self).active_view() - 1])
                && final(self).active_view() == old(self).active_view() - 1,
            old(self).background_view().len() > 0 && index != old(self).active_view() && index
                <= old(self).background_view().len() ==> (r is Removed && forall|cur: T|
                visual_tabs(final(self).background_view(), final(self).active_view(), cur)
                    == #[trigger] visual_tabs(
                    old(self).background_view(),
                    old(self).active_view(),
                    cur,
                ).remove(index as int)),
            old(self).background_view().len() > 0 && index != old(self).active_view() && index
                > old(self).background_view().len() ==> r is Ignored && *final(self) == *old(self),
    {
        proof {
            use_type_invariant(&*self);
        }
        let n = self.background.len();
        if n == 0 {
            return TabClose::ExitApp;
        }
        if index > n && index != self.active {
            return TabClose::Ignored;
        }
        let a = self.active;
        let ghost old_bg = self.background@;
        let mut bg = self.take_background();
        if index == a {
            if a < n {
                let x = bg.remove(a);
                assert(visual_tabs(bg@, a as nat, x) =~= old_bg);
                self.put_background(bg, a);
                TabClose::Promote(x)
            } else {
                let x = bg.remove(a - 1);
                assert(visual_tabs(bg@, (a - 1) as nat, x) =~= old_bg);
                self.put_background(bg, a - 1);
                TabClose::Promote(x)
            }
        } else {
            let vec_idx = if index < a {
                index
            } else {
                index - 1
            };
            let new_a = if index < a {
                a - 1
            } else {
                a
            };
            bg.remove(vec_idx);
            assert forall|cur: T|
                visual_tabs(bg@, new_a as nat, cur) == #[trigger] visual_tabs(
                    old_bg,
                    a as nat,
                    cur,
                ).remove(index as int) by {
                assert(visual_tabs(bg@, new_a as nat, cur) =~= visual_tabs(
                    old_bg,
                    a as nat,
                    cur,
                ).remove(index as int));
            }
            self.put_background(bg, new_a);
            TabClose::Removed
        }
    }
}

// ---------------------------------------------------------------------------
// Opening a document that may already be open
// ---------------------------------------------------------------------------

/// Where a document asked to be opened goes.
#[derive(Debug, Clone, Copy, PartialEq, Eq, Structural)]
pub enum OpenTarget {
    /// It is the active document: reload it in place.
    ReloadActive,
    /// It is open in a background tab: switch to this visual slot, then
    /// reload it.
    SwitchTo(usize),
    /// It is not open: open it in a new tab.
    OpenNew,
}

/// The first position of `t` in `xs`.
pub open spec fn first_index(xs: Seq<Seq<char>>, t: Seq<char>) -> Option<nat>
    decreases xs.len(),
{
    if xs.len() == 0 {
        None
    } else if xs[0] == t {
        Some(0)
    } else {
        match first_index(xs.drop_first(), t) {
            Some(i) => Some(i + 1),
            None => None,
        }
    }
}

/// Where `target` opens, given the active document `cur` at visual slot
/// `active` and the background documents `bg` (all as canonical paths).
pub open spec fn open_target_of(cur: Seq<char>, bg: Seq<Seq<char>>, active: nat, target: Seq<char>) -> OpenTarget {
    if cur == target {
        OpenTarget::ReloadActive
    } else {
        match first_index(bg, target) {
            Some(i) => OpenTarget::SwitchTo(
                if i < active {
                    i as usize
                } else {
                    (i + 1) as usize
                },
            ),
            None => OpenTarget::OpenNew,
        }
    }
}

proof fn lemma_first_index(xs: Seq<Seq<char>>, t: Seq<char>)
    ensures
        first_index(xs, t) matches Some(i) ==> i < xs.len() && xs[i as int] == t && forall|j: int|
            0 <= j < i ==> xs[j] != t,
        first_index(xs, t) is None ==> forall|j: int| 0 <= j < xs.len() ==> xs[j] != t,
    decreases xs.len(),
{
    if xs.len() > 0 {
        lemma_first_index(xs.drop_first(), t);
        if xs[0] != t {
            assert forall|j: int| 0 < j < xs.len() implies xs[j] == xs.drop_first()[j - 1] by {}
        }
    }
}

proof fn lemma_first_index_at(xs: Seq<Seq<char>>, t: Seq<char>, i: int)
    requires
        0 <= i < xs.len(),
        xs[i] == t,
        forall|j: int| 0 <= j < i ==> xs[j] != t,
    ensures
        first_index(xs, t) == Some(i as nat),
    decreases i,
{
    if i > 0 {
        lemma_first_index_at(xs.drop_first(), t, i - 1);
    }
}

/// Decides where a document asked to be opened goes: the active one is
/// reloaded; one open in the background is switched to (the first such
/// tab); any other opens in a new tab.
pub fn open_target(current: &str, background: &Vec<String>, active: usize, target: &str) -> (r: OpenTarget)
    requires
        active <= background@.len(),
    ensures
        r == open_target_of(current@, background@.map_values(|b: String| b@), active as nat, target@),
{
    let ghost bg = background@.map_values(|b: String| b@);
    let tv = crate::text::chars_of(target);
    let cv = crate::text::chars_of(current);
    if crate::text::vec_eq(&cv, &tv) {
        return OpenTarget::ReloadActive;
    }
    let mut i: usize = 0;
    while i < background.len()
        invariant
            i <= background@.len(),
            active <= background@.len(),
            bg == background@.map_values(|b: String| b@),
            tv@ == target@,
            current@ != target@,
            forall|j: int| 0 <= j < i ==> bg[j] != target@,
        decreases background@.len() - i,
    {
        let bv = crate::text::chars_of(background[i].as_str());
        if crate::text::vec_eq(&bv, &tv) {
            proof {
                lemma_first_index_at(bg, target@, i as int);
            }
            let slot = if i < active {
                i
            } else {
                i + 1
            };
            return OpenTarget::SwitchTo(slot);
        }
        i = i + 1;
    }
    proof {
        lemma_first_index(bg, target@);
        if first_index(bg, target@) is Some {
            let k = first_index(bg, target@)->0;
            assert(bg[k as int] == target@);
        }
    }
    OpenTarget::OpenNew
}

/// No document appears twice.
pub open spec fn all_distinct(xs: Seq<Seq<char>>) -> bool {
    forall|i: int, j: int| 0 <= i < j < xs.len() ==> xs[i] != xs[j]
}

/// Re-opening a document never duplicates a tab: when the open documents
/// are distinct and a document goes to a new tab (it was not open), the
/// open documents stay distinct after the outgoing one keeps its slot and
/// the new one is appended, as `TabStrip::open_new` does.
pub proof fn reopen_never_duplicates(bg: Seq<Seq<char>>, active: nat, cur: Seq<char>, target: Seq<char>)
    requires
        active <= bg.len(),
        all_distinct(visual_tabs(bg, active, cur)),
        open_target_of(cur, bg, active, target) == OpenTarget::OpenNew,
    ensures
        all_distinct(visual_tabs(bg.insert(active as int, cur), bg.len() + 1, target)),
{
    lemma_first_index(bg, target);
    let before = visual_tabs(bg, active, cur);
    let grown = bg.insert(active as int, cur);
    assert(grown =~= before);
    let after = visual_tabs(grown, bg.len() + 1, target);
    assert(grown.take(bg.len() + 1int) =~= grown);
    assert(grown.skip(bg.len() + 1int) =~= Seq::<Seq<char>>::empty());
    assert(after =~= before.push(target));
    assert forall|k: int| 0 <= k < before.len() implies before[k] != target by {
        if k < active {
            assert(before[k] == bg[k]);
        } else if k == active {
            assert(before[k] == cur);
        } else {
            assert(before[k] == bg[k - 1]);
        }
    }
}

/// Opening a document already open never adds a tab: it is the active one
/// (reloaded) or it sits at the slot it is switched to.
pub proof fn reopen_finds_open_document(bg: Seq<Seq<char>>, active: nat, cur: Seq<char>, target: Seq<char>)
    requires
        active <= bg.len(),
        bg.len() < usize::MAX,
        visual_tabs(bg, active, cur).contains(target),
    ensures
        open_target_of(cur, bg, active, target) != OpenTarget::OpenNew,
        open_target_of(cur, bg, active, target) matches OpenTarget::SwitchTo(slot) ==> slot
            <= bg.len() && slot != active && visual_tabs(bg, active, cur)[slot as int] == target,
{
    lemma_first_index(bg, target);
    let v = visual_tabs(bg, active, cur);
    if cur != target {
        let k = choose|k: int| 0 <= k < v.len() && v[k] == target;
        if k < active {
            assert(v[k] == bg[k]);
        } else if k == active {
            assert(v[k] == cur);
        } else {
            assert(v[k] == bg[k - 1]);
        }
        let i = first_index(bg, target)->0;
        if i < active {
            assert(v[i as int] == bg[i as int]);
        } else {
            assert(v[i + 1int] == bg[i as int]);
        }
    }
}

// ---------------------------------------------------------------------------
// Key map
// ---------------------------------------------------------------------------

/// Pixels scrolled per `j`/`k` press.
pub const LINE_SCROLL: i32 = 40;

/// Pixels scrolled per page.
pub const PAGE_SCROLL: i32 = 360;

/// Scroll per `k` press (upwards).
pub const LINE_SCROLL_UP: i32 = -40;

/// Scroll per page upwards.
pub const PAGE_SCROLL_UP: i32 = -360;

/// Named keys the viewer reacts to.
#[derive(Debug, Clone, Copy, PartialEq, Eq, Structural)]
pub enum NamedKey {
    Escape,
    ArrowDown,
    ArrowUp,
    ArrowLeft,
    ArrowRight,
    PageDown,
    PageUp,
    Home,
    End,
    Space,
    Tab,
    Enter,
    Other,
}

/// A key press: a named key, or a character key with its unmodified and
/// its shift-aware character (`None` when the key text is not exactly one
/// character).
#[derive(Debug, Clone, Copy, PartialEq, Eq, Structural)]
pub enum KeyPress {
    Named(NamedKey),
    Character { key: Option<char>, shifted: Option<char> },
    Unidentified,
}

/// Modifier keys held.
#[derive(Debug, Clone, Copy, PartialEq, Eq, Structural)]
pub struct Modifiers {
    pub control: bool,
    pub shift: bool,
    pub alt: bool,
}

/// The viewer state the key map depends on.
#[derive(Debug, Clone, Copy, PartialEq, Eq, Hash, Structural)]
pub struct KeyContext {
    /// The search box is open.
    pub search_mode: bool,
    /// An overlay panel shows.
    pub has_overlay: bool,
    /// The outline has keyboard focus.
    pub sidebar_focused: bool,
    /// The comment composer is open.
    pub composing: bool,
    /// The document is under review.
    pub review_mode: bool,
}

/// What a key press asks the viewer to do.
#[derive(Debug, Clone, Copy, PartialEq, Eq, Structural)]
pub enum Command {
    CloseOverlay,
    SearchClose,
    UnfocusSidebar,
    SidebarNext,
    SidebarPrev,
    SidebarActivate,
    SidebarToggleFocus,
    SidebarToggleVisibility,
    /// Scroll by this many pixels (negative: up).
    ScrollBy(i32),
    HistoryBack,
    HistoryForward,
    ScrollToTop,
    ScrollToBottom,
    FocusNextLink,
    FocusPrevLink,
    ActivateLink,
    SearchOpen,
    SearchNext,
    SearchPrev,
    CycleTheme,
    ReloadFile,
    CopyToClipboard,
    ShowShortcuts,
    /// First or second key of a two-key sequence.
    PendingKey(char),
    NextTab,
    PrevTab,
    CloseActiveTab,
    /// Switch between the rendered document and the commented source.
    ToggleCommentMode,
    /// Drop the comment being composed.
    CommentCancel,
    /// Submit the review and quit.
    ReviewSubmit,
}

/// Keys while the outline has focus.
pub open spec fn outline_key(k: KeyPress, m: Modifiers) -> Option<Command> {
    match k {
        KeyPress::Named(NamedKey::ArrowDown) => Some(Command::SidebarNext),
        KeyPress::Named(NamedKey::ArrowUp) => Some(Command::SidebarPrev),
        KeyPress::Named(NamedKey::Enter) => Some(Command::SidebarActivate),
        KeyPress::Character { key: Some(c), shifted: _ } => if c == 'j' {
            Some(Command::SidebarNext)
        } else if c == 'k' {
            Some(Command::SidebarPrev)
        } else if c == 'o' {
            Some(Command::SidebarToggleFocus)
        } else if m.control && c == 'b' {
            Some(Command::SidebarToggleVisibility)
        } else {
            None
        },
        _ => None,
    }
}

/// Named keys in the document view; with Control, Tab switches tabs.
pub open spec fn document_named_key(n: NamedKey, m: Modifiers) -> Option<Command> {
    match n {
        NamedKey::ArrowDown => Some(Command::ScrollBy(LINE_SCROLL)),
        NamedKey::ArrowUp => Some(Command::ScrollBy(LINE_SCROLL_UP)),
        NamedKey::ArrowLeft => Some(Command::HistoryBack),
        NamedKey::ArrowRight => Some(Command::HistoryForward),
        NamedKey::PageDown => Some(Command::ScrollBy(PAGE_SCROLL)),
        NamedKey::PageUp => Some(Command::ScrollBy(PAGE_SCROLL_UP)),
        NamedKey::Home => Some(Command::ScrollToTop),
        NamedKey::End => Some(Command::ScrollToBottom),
        NamedKey::Space => Some(Command::ScrollBy(PAGE_SCROLL)),
        NamedKey::Tab => if m.control {
            if m.shift {
                Some(Command::PrevTab)
            } else {
                Some(Command::NextTab)
            }
        } else if m.shift {
            Some(Command::FocusPrevLink)
        } else {
            Some(Command::FocusNextLink)
        },
        NamedKey::Enter => Some(Command::ActivateLink),
        _ => None,
    }
}

/// Control-key combinations in the document view (by the unmodified key).
pub open spec fn control_key(c: char) -> Option<Command> {
    if c == 'd' {
        Some(Command::ScrollBy(PAGE_SCROLL))
    } else if c == 'u' {
        Some(Command::ScrollBy(PAGE_SCROLL_UP))
    } else if c == 'f' {
        Some(Command::SearchOpen)
    } else if c == 'b' {
        Some(Command::SidebarToggleVisibility)
    } else if c == 't' {
        Some(Command::CycleTheme)
    } else if c == 'r' {
        Some(Command::ReloadFile)
    } else if c == 'c' {
        Some(Command::CopyToClipboard)
    } else if c == 'w' {
        Some(Command::CloseActiveTab)
    } else {
        None
    }
}

/// Plain character keys in the document view (by the shift-aware key);
/// `c` toggles the commented source under review.
pub open spec fn plain_key(c: char, review_mode: bool) -> Option<Command> {
    if c == 'j' {
        Some(Command::ScrollBy(LINE_SCROLL))
    } else if c == 'k' {
        Some(Command::ScrollBy(LINE_SCROLL_UP))
    } else if c == 'h' {
        Some(Command::HistoryBack)
    } else if c == 'l' {
        Some(Command::HistoryForward)
    } else if c == 'n' {
        Some(Command::SearchNext)
    } else if c == 'p' {
        Some(Command::SearchPrev)
    } else if c == '/' {
        Some(Command::SearchOpen)
    } else if c == '?' {
        Some(Command::ShowShortcuts)
    } else if c == 'o' {
        Some(Command::SidebarToggleFocus)
    } else if c == 'c' && review_mode {
        Some(Command::ToggleCommentMode)
    } else if c == 'g' || c == 'G' || c == 'q' || c == 'Z' || c == '`' || c == 't' || c == 'T' {
        Some(Command::PendingKey(c))
    } else {
        None
    }
}

/// Whether the press is Control-Enter.
pub open spec fn is_control_enter(k: KeyPress, m: Modifiers) -> bool {
    k == KeyPress::Named(NamedKey::Enter) && m.control
}

/// The command for a key press. Escape closes an overlay, else the search,
/// else the comment composer, else outline focus. Under review,
/// Control-Enter submits unless an overlay or the search is open.
/// Otherwise nothing happens while searching, composing or while an
/// overlay shows; with the outline focused its keys apply; else the
/// document keys (control combinations by the unmodified key, plain keys by
/// the shift-aware key, nothing with Alt).
pub open spec fn key_command(k: KeyPress, m: Modifiers, c: KeyContext) -> Option<Command> {
    if k == KeyPress::Named(NamedKey::Escape) {
        if c.has_overlay {
            Some(Command::CloseOverlay)
        } else if c.search_mode {
            Some(Command::SearchClose)
        } else if c.composing {
            Some(Command::CommentCancel)
        } else if c.sidebar_focused {
            Some(Command::UnfocusSidebar)
        } else {
            None
        }
    } else if c.search_mode || c.has_overlay {
        None
    } else if c.review_mode && is_control_enter(k, m) {
        Some(Command::ReviewSubmit)
    } else if c.composing {
        None
    } else if c.sidebar_focused {
        outline_key(k, m)
    } else {
        match k {
            KeyPress::Named(n) => document_named_key(n, m),
            KeyPress::Character { key, shifted } => if m.control {
                match key {
                    Some(ch) => control_key(ch),
                    None => None,
                }
            } else if m.alt {
                None
            } else {
                match shifted {
                    Some(ch) => plain_key(ch, c.review_mode),
                    None => None,
                }
            },
            KeyPress::Unidentified => None,
        }
    }
}

fn control_key_exec(c: char) -> (r: Option<Command>)
    ensures
        r == control_key(c),
{
    if c == 'd' {
        Some(Command::ScrollBy(PAGE_SCROLL))
    } else if c == 'u' {
        Some(Command::ScrollBy(PAGE_SCROLL_UP))
    } else if c == 'f' {
        Some(Command::SearchOpen)
    } else if c == 'b' {
        Some(Command::SidebarToggleVisibility)
    } else if c == 't' {
        Some(Command::CycleTheme)
    } else if c == 'r' {
        Some(Command::ReloadFile)
    } else if c == 'c' {
        Some(Command::CopyToClipboard)
    } else if c == 'w' {
        Some(Command::CloseActiveTab)
    } else {
        None
    }
}

fn plain_key_exec(c: char, review_mode: bool) -> (r: Option<Command>)
    ensures
        r == plain_key(c, review_mode),
{
    if c == 'j' {
        Some(Command::ScrollBy(LINE_SCROLL))
    } else if c == 'k' {
        Some(Command::ScrollBy(LINE_SCROLL_UP))
    } else if c == 'h' {
        Some(Command::HistoryBack)
    } else if c == 'l' {
        Some(Command::HistoryForward)
    } else if c == 'n' {
        Some(Command::SearchNext)
    } else if c == 'p' {
        Some(Command::SearchPrev)
    } else if c == '/' {
        Some(Command::SearchOpen)
    } else if c == '?' {
        Some(Command::ShowShortcuts)
    } else if c == 'o' {
        Some(Command::SidebarToggleFocus)
    } else if c == 'c' && review_mode {
        Some(Command::ToggleCommentMode)
    } else if c == 'g' || c == 'G' || c == 'q' || c == 'Z' || c == '`' || c == 't' || c == 'T' {
        Some(Command::PendingKey(c))
    } else {
        None
    }
}

fn outline_key_exec(k: KeyPress, m: Modifiers) -> (r: Option<Command>)
    ensures
        r == outline_key(k, m),
{
    match k {
        KeyPress::Named(NamedKey::ArrowDown) => Some(Command::SidebarNext),
        KeyPress::Named(NamedKey::ArrowUp) => Some(Command::SidebarPrev),
        KeyPress::Named(NamedKey::Enter) => Some(Command::SidebarActivate),
        KeyPress::Character { key: Some(ch), shifted: _ } => if ch == 'j' {
            Some(Command::SidebarNext)
        } else if ch == 'k' {
            Some(Command::SidebarPrev)
        } else if ch == 'o' {
            Some(Command::SidebarToggleFocus)
        } else if m.control && ch == 'b' {
            Some(Command::SidebarToggleVisibility)
        } else {
            None
        },
        _ => None,
    }
}

fn document_named_key_exec(n: NamedKey, m: Modifiers) -> (r: Option<Command>)
    ensures
        r == document_named_key(n, m),
{
    match n {
        NamedKey::ArrowDown => Some(Command::ScrollBy(LINE_SCROLL)),
        NamedKey::ArrowUp => Some(Command::ScrollBy(LINE_SCROLL_UP)),
        NamedKey::ArrowLeft => Some(Command::HistoryBack),
        NamedKey::ArrowRight => Some(Command::HistoryForward),
        NamedKey::PageDown => Some(Command::ScrollBy(PAGE_SCROLL)),
        NamedKey::PageUp => Some(Command::ScrollBy(PAGE_SCROLL_UP)),
        NamedKey::Home => Some(Command::ScrollToTop),
        NamedKey::End => Some(Command::ScrollToBottom),
        NamedKey::Space => Some(Command::ScrollBy(PAGE_SCROLL)),
        NamedKey::Tab => if m.control {
            if m.shift {
                Some(Command::PrevTab)
            } else {
                Some(Command::NextTab)
            }
        } else if m.shift {
            Some(Command::FocusPrevLink)
        } else {
            Some(Command::FocusNextLink)
        },
        NamedKey::Enter => Some(Command::ActivateLink),
        _ => None,
    }
}

/// Maps a key press to the viewer command it asks for.
pub fn command_for_key(k: KeyPress, m: Modifiers, c: KeyContext) -> (r: Option<Command>)
    ensures
        r == key_command(k, m, c),
{
    if k == KeyPress::Named(NamedKey::Escape) {
        if c.has_overlay {
            Some(Command::CloseOverlay)
        } else if c.search_mode {
            Some(Command::SearchClose)
        } else if c.composing {
            Some(Command::CommentCancel)
        } else if c.sidebar_focused {
            Some(Command::UnfocusSidebar)
        } else {
            None
        }
    } else if c.search_mode || c.has_overlay {
        None
    } else if c.review_mode && k == KeyPress::Named(NamedKey::Enter) && m.control {
        Some(Command::ReviewSubmit)
    } else if c.composing {
        None
    } else if c.sidebar_focused {
        outline_key_exec(k, m)
    } else {
        match k {
            KeyPress::Named(n) => document_named_key_exec(n, m),
            KeyPress::Character { key, shifted } => if m.control {
                match key {
                    Some(ch) => control_key_exec(ch),
                    None => None,
                }
            } else if m.alt {
                None
            } else {
                match shifted {
                    Some(ch) => plain_key_exec(ch, c.review_mode),
                    None => None,
                }
            },
            KeyPress::Unidentified => None,
        }
    }
}

/// Escape always reaches the innermost open thing: an overlay first, then
/// the search, then the comment composer; and no other key does anything
/// while an overlay shows or while searching, nor while composing except
/// the review submission.
pub proof fn escape_and_modal_keys(k: KeyPress, m: Modifiers, c: KeyContext)
    ensures
        c.has_overlay ==> key_command(KeyPress::Named(NamedKey::Escape), m, c) == Some(
            Command::CloseOverlay,
        ),
        !c.has_overlay && c.search_mode ==> key_command(KeyPress::Named(NamedKey::Escape), m, c)
            == Some(Command::SearchClose),
        !c.has_overlay && !c.search_mode && c.composing ==> key_command(
            KeyPress::Named(NamedKey::Escape),
            m,
            c,
        ) == Some(Command::CommentCancel),
        (c.has_overlay || c.search_mode) && k != KeyPress::Named(NamedKey::Escape) ==> key_command(
            k,
            m,
            c,
        ) is None,
        c.composing && k != KeyPress::Named(NamedKey::Escape) && !(c.review_mode
            && is_control_enter(k, m)) ==> key_command(k, m, c) is None,
{
}

/// In the document view the scrolling keys come in opposite pairs:
/// Control-D, Page Down and Space scroll down a page and Control-U and Page
/// Up scroll up by the same page (Control keys go by the unmodified key,
/// whatever else is held); `j` and Arrow Down scroll down a line and `k`
/// and Arrow Up up by the same line; a page is longer than a line.
pub proof fn document_scroll_keys(c: KeyContext, m: Modifiers, shifted: Option<char>, key: Option<char>)
    requires
        !c.search_mode,
        !c.has_overlay,
        !c.composing,
        !c.sidebar_focused,
        m.control,
    ensures
        0 < LINE_SCROLL < PAGE_SCROLL,
        LINE_SCROLL_UP == -LINE_SCROLL,
        PAGE_SCROLL_UP == -PAGE_SCROLL,
        key_command(
            KeyPress::Named(NamedKey::PageDown),
            Modifiers { control: false, shift: false, alt: false },
            c,
        ) == Some(Command::ScrollBy(PAGE_SCROLL)),
        key_command(
            KeyPress::Named(NamedKey::PageUp),
            Modifiers { control: false, shift: false, alt: false },
            c,
        ) == Some(Command::ScrollBy(PAGE_SCROLL_UP)),
        key_command(KeyPress::Character { key: Some('d'), shifted }, m, c) == key_command(
            KeyPress::Named(NamedKey::PageDown),
            Modifiers { control: false, shift: false, alt: false },
            c,
        ),
        key_command(KeyPress::Character { key: Some('u'), shifted }, m, c) == key_command(
            KeyPress::Named(NamedKey::PageUp),
            Modifiers { control: false, shift: false, alt: false },
            c,
        ),
        key_command(
            KeyPress::Named(NamedKey::Space),
            Modifiers { control: false, shift: false, alt: false },
            c,
        ) == Some(Command::ScrollBy(PAGE_SCROLL)),
        key_command(
            KeyPress::Named(NamedKey::ArrowDown),
            Modifiers { control: false, shift: false, alt: false },
            c,
        ) == Some(Command::ScrollBy(LINE_SCROLL)),
        key_command(
            KeyPress::Named(NamedKey::ArrowUp),
            Modifiers { control: false, shift: false, alt: false },
            c,
        ) == Some(Command::ScrollBy(LINE_SCROLL_UP)),
        key_command(
            KeyPress::Character { key, shifted: Some('j') },
            Modifiers { control: false, shift: false, alt: false },
            c,
        ) == Some(Command::ScrollBy(LINE_SCROLL)),
        key_command(
            KeyPress::Character { key, shifted: Some('k') },
            Modifiers { control: false, shift: false, alt: false },
            c,
        ) == Some(Command::ScrollBy(LINE_SCROLL_UP)),
{
}

/// The document view's key map, as the keymap documents it: `h` and
/// Arrow Left go back and `l` and Arrow Right forward; `/` and Control-F
/// open the search, `n` and `p` go to the next and previous hit; Tab and
/// Shift-Tab move the link focus forward and back, and with Control switch
/// to the next and previous tab; Home and End go to the top and the
/// bottom; `o` focuses the outline, Control-B shows or hides it; Control-W
/// closes the tab; `?` shows the shortcuts; `g`, `G` and the backtick start
/// two-key sequences; Enter activates.
pub proof fn document_key_map(c: KeyContext, m: Modifiers, shifted: Option<char>, key: Option<char>)
    requires
        !c.search_mode,
        !c.has_overlay,
        !c.composing,
        !c.sidebar_focused,
        m.control,
    ensures
        key_command(KeyPress::Character { key, shifted: Some('h') }, Modifiers { control: false, shift: false, alt: false }, c) == Some(Command::HistoryBack),
        key_command(KeyPress::Named(NamedKey::ArrowLeft), Modifiers { control: false, shift: false, alt: false }, c) == key_command(KeyPress::Character { key, shifted: Some('h') }, Modifiers { control: false, shift: false, alt: false }, c),
        key_command(KeyPress::Character { key, shifted: Some('l') }, Modifiers { control: false, shift: false, alt: false }, c) == Some(Command::HistoryForward),
        key_command(KeyPress::Named(NamedKey::ArrowRight), Modifiers { control: false, shift: false, alt: false }, c) == key_command(KeyPress::Character { key, shifted: Some('l') }, Modifiers { control: false, shift: false, alt: false }, c),
        key_command(KeyPress::Character { key, shifted: Some('/') }, Modifiers { control: false, shift: false, alt: false }, c) == Some(Command::SearchOpen),
        key_command(KeyPress::Character { key: Some('f'), shifted }, m, c) == key_command(KeyPress::Character { key, shifted: Some('/') }, Modifiers { control: false, shift: false, alt: false }, c),
        key_command(KeyPress::Character { key, shifted: Some('n') }, Modifiers { control: false, shift: false, alt: false }, c) == Some(Command::SearchNext),
        key_command(KeyPress::Character { key, shifted: Some('p') }, Modifiers { control: false, shift: false, alt: false }, c) == Some(Command::SearchPrev),
        key_command(KeyPress::Named(NamedKey::Tab), Modifiers { control: false, shift: false, alt: false }, c) == Some(Command::FocusNextLink),
        key_command(KeyPress::Named(NamedKey::Tab), Modifiers { control: false, shift: true, alt: false }, c) == Some(Command::FocusPrevLink),
        key_command(KeyPress::Named(NamedKey::Tab), Modifiers { control: true, shift: false, alt: false }, c) == Some(Command::NextTab),
        key_command(KeyPress::Named(NamedKey::Tab), Modifiers { control: true, shift: true, alt: false }, c) == Some(Command::PrevTab),
        key_command(KeyPress::Named(NamedKey::Home), Modifiers { control: false, shift: false, alt: false }, c) == Some(Command::ScrollToTop),
        key_command(KeyPress::Named(NamedKey::End), Modifiers { control: false, shift: false, alt: false }, c) == Some(Command::ScrollToBottom),
        key_command(KeyPress::Character { key, shifted: Some('o') }, Modifiers { control: false, shift: false, alt: false }, c) == Some(Command::SidebarToggleFocus),
        key_command(KeyPress::Character { key: Some('b'), shifted }, m, c) == Some(Command::SidebarToggleVisibility),
        key_command(KeyPress::Character { key: Some('w'), shifted }, m, c) == Some(Command::CloseActiveTab),
        key_command(KeyPress::Character { key, shifted: Some('?') }, Modifiers { control: false, shift: false, alt: false }, c) == Some(Command::ShowShortcuts),
        key_command(KeyPress::Character { key, shifted: Some('g') }, Modifiers { control: false, shift: false, alt: false }, c) == Some(Command::PendingKey('g')),
        key_command(KeyPress::Character { key, shifted: Some('G') }, Modifiers { control: false, shift: false, alt: false }, c) == Some(Command::PendingKey('G')),
        key_command(KeyPress::Character { key, shifted: Some('`') }, Modifiers { control: false, shift: false, alt: false }, c) == Some(Command::PendingKey('`')),
        !c.review_mode && !c.composing ==> key_command(KeyPress::Named(NamedKey::Enter), Modifiers { control: false, shift: false, alt: false }, c) == Some(Command::ActivateLink),
{
}

/// Two-key sequences do what the keymap says: `gg` scrolls to the top,
/// `GG` to the bottom, the backtick twice jumps to the last position, `qq`
/// and `ZZ` quit; `g` then `t` or `T` switches to the next or previous tab.
pub proof fn two_key_sequences(pending: Option<char>)
    ensures
        pending != Some('g') ==> press(press(pending, 'g').0, 'g') == (None::<char>, KeySequence::ScrollToTop),
        pending != Some('G') ==> press(press(pending, 'G').0, 'G') == (None::<char>, KeySequence::ScrollToBottom),
        pending != Some('`') ==> press(press(pending, '`').0, '`') == (None::<char>, KeySequence::JumpToLastPosition),
        pending != Some('q') ==> press(press(pending, 'q').0, 'q') == (None::<char>, KeySequence::Exit),
        pending != Some('Z') ==> press(press(pending, 'Z').0, 'Z') == (None::<char>, KeySequence::Exit),
        pending != Some('g') ==> press(pending, 'g') == (Some('g'), KeySequence::Nothing),
{
}

// ---------------------------------------------------------------------------
// Line comments
// ---------------------------------------------------------------------------

/// A comment anchored to a 0-based source line.
#[derive(Debug, Clone, PartialEq, Eq)]
pub struct LineComment {
    /// 0-based source line.
    pub line: usize,
    /// Comment body.
    pub text: String,
}

/// The lines and bodies of a comment list.
pub open spec fn comment_pairs(items: Seq<LineComment>) -> Seq<(usize, Seq<char>)> {
    items.map_values(|c: LineComment| (c.line, c.text@))
}

/// Strictly increasing lines.
pub open spec fn sorted_lines(s: Seq<(usize, Seq<char>)>) -> bool {
    forall|i: int, j: int| 0 <= i < j < s.len() ==> s[i].0 < s[j].0
}

/// The comment on `line`, if any.
pub open spec fn comment_on(s: Seq<(usize, Seq<char>)>, line: usize) -> Option<Seq<char>>
    decreases s.len(),
{
    if s.len() == 0 {
        None
    } else if s[0].0 == line {
        Some(s[0].1)
    } else {
        comment_on(s.drop_first(), line)
    }
}

/// The new comment of a submit: none for an empty text.
pub open spec fn new_comment(line: usize, text: Seq<char>) -> Seq<(usize, Seq<char>)> {
    if text.len() == 0 {
        Seq::empty()
    } else {
        seq![(line, text)]
    }
}

/// A line-ordered comment list after submitting `text` for `line`: the
/// comments on earlier lines, then the new comment (none for an empty
/// text), then the comments on later lines; the old comment on `line`, if
/// any, is gone.
pub open spec fn after_submit(s: Seq<(usize, Seq<char>)>, line: usize, text: Seq<char>) -> Seq<
    (usize, Seq<char>),
>
    decreases s.len(),
{
    if s.len() == 0 {
        new_comment(line, text)
    } else if s[0].0 < line {
        seq![s[0]] + after_submit(s.drop_first(), line, text)
    } else if s[0].0 == line {
        after_submit(s.drop_first(), line, text)
    } else {
        new_comment(line, text) + s
    }
}

/// Comments of one document, at most one per line, ordered by line.
pub struct CommentList {
    items: Vec<LineComment>,
}

impl CommentList {
    /// The comments, as (line, text) pairs in order.
    pub closed spec fn pairs(self) -> Seq<(usize, Seq<char>)> {
        comment_pairs(self.items@)
    }

    /// Lines strictly increase.
    #[verifier::type_invariant]
    spec fn wf(self) -> bool {
        sorted_lines(self.pairs())
    }

    /// No comments.
    pub fn new() -> (r: Self)
        ensures
            sorted_lines(r.pairs()),
            r.pairs() == Seq::<(usize, Seq<char>)>::empty(),
    {
        let r = CommentList { items: Vec::new() };
        assert(r.pairs() =~= Seq::<(usize, Seq<char>)>::empty());
        r
    }

    /// The comments in line order.
    pub fn items(&self) -> (r: &Vec<LineComment>)
        ensures
            comment_pairs(r@) == self.pairs(),
            sorted_lines(self.pairs()),
    {
        proof {
            use_type_invariant(self);
        }
        &self.items
    }

    /// The comment on `line`, copied (to prefill the composer).
    pub fn text_on(&self, line: usize) -> (r: Option<String>)
        ensures
            r matches Some(t) ==> comment_on(self.pairs(), line) == Some(t@),
            r is None ==> comment_on(self.pairs(), line) is None,
    {
        let mut i: usize = 0;
        assert(self.pairs().skip(0) =~= self.pairs());
        while i < self.items.len()
            invariant
                i <= self.items@.len(),
                comment_on(self.pairs(), line) == comment_on(self.pairs().skip(i as int), line),
            decreases self.items@.len() - i,
        {
            proof {
                assert(self.pairs().skip(i as int)[0] == self.pairs()[i as int]);
                assert(self.pairs().skip(i as int).drop_first() =~= self.pairs().skip(i + 1));
            }
            if self.items[i].line == line {
                let mut t = String::new();
                crate::text::push_str(&mut t, self.items[i].text.as_str());
                return Some(t);
            }
            i = i + 1;
        }
        None
    }

    /// The comments as review annotations: one note per comment, anchored
    /// to its line, in line order.
    pub fn to_annotations(&self) -> (r: Vec<Annotation>)
        ensures
            r@.len() == self.pairs().len(),
            forall|i: int|
                0 <= i < r@.len() ==> (#[trigger] r@[i]).line == self.pairs()[i].0 && r@[i].kind
                    == Kind::Note && r@[i].end_line is None && r@[i].value is None && (r@[i].comment matches Some(c) && c@ == self.pairs()[i].1),
    {
        let mut r: Vec<Annotation> = Vec::new();
        let mut i: usize = 0;
        while i < self.items.len()
            invariant
                i <= self.items@.len(),
                r@.len() == i,
                forall|k: int|
                    0 <= k < i ==> (#[trigger] r@[k]).line == self.pairs()[k].0 && r@[k].kind
                        == Kind::Note && r@[k].end_line is None && r@[k].value is None && (r@[k].comment matches Some(c) && c@ == self.pairs()[k].1),
            decreases self.items@.len() - i,
        {
            let mut t = String::new();
            push_str(&mut t, self.items[i].text.as_str());
            r.push(Annotation {
                line: self.items[i].line,
                end_line: None,
                kind: Kind::Note,
                comment: Some(t),
                value: None,
            });
            i = i + 1;
        }
        r
    }

    /// Submits the composer text for `line`: the text is trimmed; any
    /// earlier comment on the line goes; a non-empty text becomes the line's
    /// comment, at its place in line order.
    pub fn submit(&mut self, line: usize, draft: &str)
        ensures
            sorted_lines(final(self).pairs()),
            forall|l: usize| l != line ==> comment_on(final(self).pairs(), l) == comment_on(
                old(self).pairs(),
                l,
            ),
            crate::text::trim(draft@).len() == 0 ==> comment_on(final(self).pairs(), line) is None,
            crate::text::trim(draft@).len() > 0 ==> comment_on(final(self).pairs(), line) == Some(
                crate::text::trim(draft@),
            ),
            final(self).pairs() == after_submit(old(self).pairs(), line, crate::text::trim(draft@)),
    {
        proof {
            use_type_invariant(&*self);
        }
        let mut items: Vec<LineComment> = Vec::new();
        std::mem::swap(&mut items, &mut self.items);
        let dv = crate::text::chars_of(draft);
        let n = dv.len();
        let e = n - crate::text::count_trailing_ws(&dv, 0, n);
        let st = crate::text::count_leading_ws(&dv, 0, e);
        assert(dv@.subrange(0, n as int) =~= dv@);
        assert(crate::text::trim(draft@) =~= dv@.subrange(st as int, e as int));
        // First position whose line is at least `line`.
        let mut p: usize = 0;
        while p < items.len() && items[p].line < line
            invariant
                p <= items@.len(),
                forall|j: int| 0 <= j < p ==> comment_pairs(items@)[j].0 < line,
            decreases items@.len() - p,
        {
            p = p + 1;
        }
        let ghost before = comment_pairs(items@);
        assert(p < before.len() ==> before[p as int].0 >= line);
        if p < items.len() && items[p].line == line {
            items.remove(p);
            proof {
                lemma_comment_remove(before, p as int);
                assert(comment_pairs(items@) =~= before.remove(p as int));
                let mid = comment_pairs(items@);
                assert forall|j: int| p <= j < mid.len() implies mid[j].0 > line by {
                    assert(mid[j] == before[j + 1]);
                    assert(before[p as int].0 < before[j + 1].0);
                }
            }
        } else {
            proof {
                assert forall|j: int| p <= j < before.len() implies before[j].0 > line by {
                    if j > p {
                        assert(before[p as int].0 < before[j].0);
                    }
                }
            }
        }
        let ghost mid = comment_pairs(items@);
        proof {
            lemma_after_submit_at(before, line, crate::text::trim(draft@), p as int);
            let present = p < before.len() && before[p as int].0 == line;
            let rest = if present {
                before.skip(p + 1)
            } else {
                before.skip(p as int)
            };
            assert(mid =~= before.take(p as int) + rest);
        }
        if st < e {
            let tv = crate::text::slice_vec(&dv, st, e);
            let text = crate::text::string_of(tv.as_slice());
            items.insert(p, LineComment { line, text });
            proof {
                assert(comment_pairs(items@) =~= mid.insert(p as int, (line, crate::text::trim(draft@))));
                lemma_comment_insert(mid, p as int, line, crate::text::trim(draft@));
                assert(comment_pairs(items@) =~= after_submit(before, line, crate::text::trim(draft@)));
            }
        } else {
            proof {
                lemma_comment_absent(mid, line, p as int);
                assert(comment_pairs(items@) =~= after_submit(before, line, crate::text::trim(draft@)));
            }
        }
        self.items = items;
    }
}

/// Submitting leaves the comments on earlier lines in front.
proof fn lemma_after_submit_skip(s: Seq<(usize, Seq<char>)>, line: usize, t: Seq<char>, p: int)
    requires
        0 <= p <= s.len(),
        forall|j: int| 0 <= j < p ==> s[j].0 < line,
    ensures
        after_submit(s, line, t) == s.take(p) + after_submit(s.skip(p), line, t),
    decreases p,
{
    if p == 0 {
        assert(s.skip(0) =~= s);
        assert(s.take(0) + after_submit(s, line, t) =~= after_submit(s, line, t));
    } else {
        let d = s.drop_first();
        lemma_after_submit_skip(d, line, t, p - 1);
        assert(d.skip(p - 1) =~= s.skip(p));
        assert(s.take(p) =~= seq![s[0]] + d.take(p - 1));
        assert(after_submit(s, line, t) == seq![s[0]] + after_submit(d, line, t));
        assert(seq![s[0]] + (d.take(p - 1) + after_submit(s.skip(p), line, t)) =~= (seq![s[0]]
            + d.take(p - 1)) + after_submit(s.skip(p), line, t));
    }
}

/// Submitting into a sorted list at the first position `p` whose line is
/// not below `line`: the front, the new comment, then the rest past any
/// old comment on `line`.
proof fn lemma_after_submit_at(s: Seq<(usize, Seq<char>)>, line: usize, t: Seq<char>, p: int)
    requires
        sorted_lines(s),
        0 <= p <= s.len(),
        forall|j: int| 0 <= j < p ==> s[j].0 < line,
        p < s.len() ==> s[p].0 >= line,
    ensures
        after_submit(s, line, t) == s.take(p) + new_comment(line, t) + (if p < s.len() && s[p].0
            == line {
            s.skip(p + 1)
        } else {
            s.skip(p)
        }),
{
    lemma_after_submit_skip(s, line, t, p);
    let r = s.skip(p);
    if p == s.len() {
        assert(r.len() == 0);
        assert(s.skip(p) =~= Seq::<(usize, Seq<char>)>::empty());
        assert(after_submit(r, line, t) == new_comment(line, t));
        assert(new_comment(line, t) + s.skip(p) =~= new_comment(line, t));
    } else if s[p].0 == line {
        assert(r[0] == s[p]);
        let q = s.skip(p + 1);
        assert(r.drop_first() =~= q);
        assert(after_submit(r, line, t) == after_submit(q, line, t));
        if q.len() == 0 {
            assert(after_submit(q, line, t) == new_comment(line, t));
            assert(new_comment(line, t) + q =~= new_comment(line, t));
        } else {
            assert(q[0] == s[p + 1]);
            assert(s[p].0 < s[p + 1].0);
            assert(after_submit(q, line, t) == new_comment(line, t) + q);
        }
    } else {
        assert(r[0] == s[p]);
        assert(after_submit(r, line, t) == new_comment(line, t) + r);
    }
    assert(s.take(p) + (new_comment(line, t) + (if p < s.len() && s[p].0 == line {
        s.skip(p + 1)
    } else {
        s.skip(p)
    })) =~= s.take(p) + new_comment(line, t) + (if p < s.len() && s[p].0 == line {
        s.skip(p + 1)
    } else {
        s.skip(p)
    }));
}

proof fn lemma_comment_on_index(s: Seq<(usize, Seq<char>)>, l: usize)
    requires
        sorted_lines(s),
    ensures
        comment_on(s, l) matches Some(t) ==> exists|i: int| 0 <= i < s.len() && s[i] == (l, t),
        comment_on(s, l) is None ==> forall|i: int| 0 <= i < s.len() ==> s[i].0 != l,
        forall|i: int| 0 <= i < s.len() && s[i].0 == l ==> comment_on(s, l) == Some(s[i].1),
    decreases s.len(),
{
    if s.len() > 0 {
        let t = s.drop_first();
        assert(sorted_lines(t)) by {
            assert forall|i: int, j: int| 0 <= i < j < t.len() implies t[i].0 < t[j].0 by {
                assert(t[i] == s[i + 1] && t[j] == s[j + 1]);
            }
        }
        lemma_comment_on_index(t, l);
        if s[0].0 != l {
            assert forall|i: int| 0 <= i < s.len() && s[i].0 == l implies comment_on(s, l) == Some(
                s[i].1,
            ) by {
                assert(i > 0);
                assert(s[i] == t[i - 1]);
            }
            if comment_on(s, l) is None {
                assert forall|i: int| 0 <= i < s.len() implies s[i].0 != l by {
                    if i > 0 {
                        assert(s[i] == t[i - 1]);
                    }
                }
            } else {
                let tt = comment_on(s, l)->0;
                let i = choose|i: int| 0 <= i < t.len() && t[i] == (l, tt);
                assert(s[i + 1] == t[i]);
            }
        } else {
            assert forall|i: int| 0 <= i < s.len() && s[i].0 == l implies comment_on(s, l) == Some(
                s[i].1,
            ) by {
                if i > 0 {
                    assert(s[0].0 < s[i].0);
                }
            }
        }
    }
}

proof fn lemma_sorted_remove(s: Seq<(usize, Seq<char>)>, p: int)
    requires
        sorted_lines(s),
        0 <= p < s.len(),
    ensures
        sorted_lines(s.remove(p)),
{
    let r = s.remove(p);
    assert forall|i: int, j: int| 0 <= i < j < r.len() implies r[i].0 < r[j].0 by {
        let a = if i < p {
            i
        } else {
            i + 1
        };
        let b = if j < p {
            j
        } else {
            j + 1
        };
        assert(r[i] == s[a] && r[j] == s[b]);
    }
}

proof fn lemma_comment_remove(s: Seq<(usize, Seq<char>)>, p: int)
    requires
        sorted_lines(s),
        0 <= p < s.len(),
    ensures
        sorted_lines(s.remove(p)),
        comment_on(s.remove(p), s[p].0) is None,
        forall|l: usize| l != s[p].0 ==> comment_on(s.remove(p), l) == comment_on(s, l),
{
    let r = s.remove(p);
    lemma_sorted_remove(s, p);
    lemma_comment_on_index(r, s[p].0);
    if comment_on(r, s[p].0) is Some {
        let t = comment_on(r, s[p].0)->0;
        let i = choose|i: int| 0 <= i < r.len() && r[i] == (s[p].0, t);
        if i < p {
            assert(r[i] == s[i]);
        } else {
            assert(r[i] == s[i + 1]);
        }
    }
    assert forall|l: usize| l != s[p].0 implies comment_on(r, l) == comment_on(s, l) by {
        lemma_comment_on_index(r, l);
        lemma_comment_on_index(s, l);
        if comment_on(s, l) is Some {
            let t = comment_on(s, l)->0;
            let i = choose|i: int| 0 <= i < s.len() && s[i] == (l, t);
            if i < p {
                assert(r[i] == s[i]);
            } else {
                assert(i != p);
                assert(r[i - 1] == s[i]);
            }
        } else if comment_on(r, l) is Some {
            let t = comment_on(r, l)->0;
            let i = choose|i: int| 0 <= i < r.len() && r[i] == (l, t);
            if i < p {
                assert(r[i] == s[i]);
            } else {
                assert(r[i] == s[i + 1]);
            }
        }
    }
}

proof fn lemma_comment_insert(s: Seq<(usize, Seq<char>)>, p: int, line: usize, t: Seq<char>)
    requires
        sorted_lines(s),
        0 <= p <= s.len(),
        forall|j: int| 0 <= j < p ==> s[j].0 < line,
        forall|j: int| p <= j < s.len() ==> s[j].0 > line,
    ensures
        sorted_lines(s.insert(p, (line, t))),
        comment_on(s.insert(p, (line, t)), line) == Some(t),
        forall|l: usize| l != line ==> comment_on(s.insert(p, (line, t)), l) == comment_on(s, l),
{
    let r = s.insert(p, (line, t));
    assert forall|i: int, j: int| 0 <= i < j < r.len() implies r[i].0 < r[j].0 by {
        if i < p && j < p {
            assert(r[i] == s[i] && r[j] == s[j]);
        } else if i < p && j == p {
            assert(r[i] == s[i]);
        } else if i < p {
            assert(r[i] == s[i] && r[j] == s[j - 1]);
        } else if i == p {
            assert(r[j] == s[j - 1]);
        } else {
            assert(r[i] == s[i - 1] && r[j] == s[j - 1]);
        }
    }
    lemma_comment_on_index(r, line);
    assert(r[p] == (line, t));
    assert forall|l: usize| l != line implies comment_on(r, l) == comment_on(s, l) by {
        lemma_comment_on_index(r, l);
        lemma_comment_on_index(s, l);
        if comment_on(s, l) is Some {
            let tt = comment_on(s, l)->0;
            let i = choose|i: int| 0 <= i < s.len() && s[i] == (l, tt);
            if i < p {
                assert(r[i] == s[i]);
            } else {
                assert(r[i + 1] == s[i]);
            }
        } else if comment_on(r, l) is Some {
            let tt = comment_on(r, l)->0;
            let i = choose|i: int| 0 <= i < r.len() && r[i] == (l, tt);
            if i < p {
                assert(r[i] == s[i]);
            } else if i == p {
                assert(false);
            } else {
                assert(r[i] == s[i - 1]);
            }
        }
    }
}

proof fn lemma_comment_absent(s: Seq<(usize, Seq<char>)>, line: usize, p: int)
    requires
        sorted_lines(s),
        0 <= p <= s.len(),
        forall|j: int| 0 <= j < p ==> s[j].0 < line,
        forall|j: int| p <= j < s.len() ==> s[j].0 > line,
    ensures
        comment_on(s, line) is None,
{
    lemma_comment_on_index(s, line);
    if comment_on(s, line) is Some {
        let t = comment_on(s, line)->0;
        let i = choose|i: int| 0 <= i < s.len() && s[i] == (line, t);
        assert(i < p || i >= p);
    }
}


// ---------------------------------------------------------------------------
// Status bar
// ---------------------------------------------------------------------------

/// The status-bar message: with search hits (and the search box closed),
/// `[i/n] "query"` where `i` counts from 1 (0 with no current hit); else,
/// with a focused link, `[i/n] text → url`; else nothing.
pub open spec fn status_message(
    hits: nat,
    search_mode: bool,
    current_hit: Option<usize>,
    query: Seq<char>,
    links: Seq<DocumentLink>,
    focused_link: Option<usize>,
) -> Seq<char> {
    if hits > 0 && !search_mode {
        let idx: nat = match current_hit {
            Some(i) => (i + 1) as nat,
            None => 0,
        };
        "["@ + decimal(idx) + "/"@ + decimal(hits) + "] \""@ + query + "\""@
    } else {
        match focused_link {
            Some(i) => "["@ + decimal((i + 1) as nat) + "/"@ + decimal(links.len()) + "] "@
                + links[i as int].text@ + " \u{2192} "@ + links[i as int].url@,
            None => Seq::empty(),
        }
    }
}

/// The status-bar message for the current search and link focus.
pub fn status_text(
    hits: usize,
    search_mode: bool,
    current_hit: Option<usize>,
    query: &str,
    links: &Vec<DocumentLink>,
    focused_link: Option<usize>,
) -> (r: String)
    requires
        !(hits > 0 && !search_mode) ==> (focused_link matches Some(i) ==> i < links@.len()),
    ensures
        r@ == status_message(hits as nat, search_mode, current_hit, query@, links@, focused_link),
{
    let mut r = String::new();
    if hits > 0 && !search_mode {
        let idx: u128 = match current_hit {
            Some(i) => i as u128 + 1,
            None => 0,
        };
        push_str(&mut r, "[");
        push_decimal(&mut r, idx);
        push_str(&mut r, "/");
        push_decimal(&mut r, hits as u128);
        push_str(&mut r, "] \"");
        push_str(&mut r, query);
        push_str(&mut r, "\"");
        assert(r@ =~= status_message(hits as nat, search_mode, current_hit, query@, links@, focused_link));
    } else {
        match focused_link {
            Some(i) => {
                push_str(&mut r, "[");
                push_decimal(&mut r, i as u128 + 1);
                push_str(&mut r, "/");
                push_decimal(&mut r, links.len() as u128);
                push_str(&mut r, "] ");
                push_str(&mut r, links[i].text.as_str());
                push_str(&mut r, " \u{2192} ");
                push_str(&mut r, links[i].url.as_str());
                assert(r@ =~= status_message(hits as nat, search_mode, current_hit, query@, links@, focused_link));
            },
            None => {},
        }
    }
    r
}


/// The hit counter of the open search box: `i/n` with hits (`i` counting
/// from 1, 0 with no current hit); `No matches` for a non-empty query
/// without hits; else nothing.
pub open spec fn search_counter_text(hits: nat, current_hit: Option<usize>, query_empty: bool) -> Seq<char> {
    if hits == 0 {
        if query_empty {
            Seq::empty()
        } else {
            "No matches"@
        }
    } else {
        let idx: nat = match current_hit {
            Some(i) => (i + 1) as nat,
            None => 0,
        };
        decimal(idx) + "/"@ + decimal(hits)
    }
}

/// The hit counter shown beside the search box.
pub fn search_counter(hits: usize, current_hit: Option<usize>, query_empty: bool) -> (r: String)
    ensures
        r@ == search_counter_text(hits as nat, current_hit, query_empty),
{
    let mut r = String::new();
    if hits == 0 {
        if !query_empty {
            push_str(&mut r, "No matches");
        }
    } else {
        let idx: u128 = match current_hit {
            Some(i) => i as u128 + 1,
            None => 0,
        };
        push_decimal(&mut r, idx);
        push_str(&mut r, "/");
        push_decimal(&mut r, hits as u128);
    }
    r
}

} // verus!
