use vstd::prelude::*;

use crate::input::{char_to_view_index, Key};
use crate::party::{adventure_esc, esc_after, same_but_slots, AdventureView, EscOutcome};
use crate::views::{GatheringScreen, GatheringView, RefiningScreen, RefiningView, Transition, TRANSITION_FRAMES};

verus! {

// ── Views, focus and the bottom tabs ──────────────────────────────────────

/// The main views the navigation bar switches between.
#[derive(Debug, Clone, Copy, PartialEq, Eq, Structural)]
pub enum MainView {
    Terminal,
    Tavern,
    Gathering,
    Refining,
    Crafting,
    Adventuring,
    Inventory,
}

/// Whether keys go to the text input bar or drive the views.
#[derive(Debug, Clone, Copy, PartialEq, Eq, Structural)]
pub enum Focus {
    Terminal,
    Input,
}

/// The tabs of the active-tasks panel.
#[derive(Debug, Clone, Copy, PartialEq, Eq, Structural)]
pub enum BottomTab {
    Expeditions,
    Refining,
    Crafting,
    Adventures,
}

/// The position of a tab in the strip.
pub open spec fn tab_index(t: BottomTab) -> int {
    match t {
        BottomTab::Expeditions => 0,
        BottomTab::Refining => 1,
        BottomTab::Crafting => 2,
        BottomTab::Adventures => 3,
    }
}

/// The tab at a position of the strip, counted around.
pub open spec fn tab_at(i: int) -> BottomTab {
    let k = i % 4;
    if k == 0 {
        BottomTab::Expeditions
    } else if k == 1 {
        BottomTab::Refining
    } else if k == 2 {
        BottomTab::Crafting
    } else {
        BottomTab::Adventures
    }
}

impl BottomTab {
    /// Every tab, in strip order.
    pub fn all() -> (tabs: [BottomTab; 4])
        ensures
            tabs@ == seq![BottomTab::Expeditions, BottomTab::Refining, BottomTab::Crafting, BottomTab::Adventures],
    {
        let tabs = [BottomTab::Expeditions, BottomTab::Refining, BottomTab::Crafting, BottomTab::Adventures];
        assert(tabs@ =~= seq![BottomTab::Expeditions, BottomTab::Refining, BottomTab::Crafting, BottomTab::Adventures]);
        tabs
    }

    /// The tab to the right, the last wrapping to the first.
    pub fn next(self) -> (t: BottomTab)
        ensures
            t == tab_at(tab_index(self) + 1),
    {
        match self {
            BottomTab::Expeditions => BottomTab::Refining,
            BottomTab::Refining => BottomTab::Crafting,
            BottomTab::Crafting => BottomTab::Adventures,
            BottomTab::Adventures => BottomTab::Expeditions,
        }
    }

    /// The tab to the left, the first wrapping to the last.
    pub fn prev(self) -> (t: BottomTab)
        ensures
            t == tab_at(tab_index(self) + 3),
    {
        match self {
            BottomTab::Expeditions => BottomTab::Adventures,
            BottomTab::Refining => BottomTab::Expeditions,
            BottomTab::Crafting => BottomTab::Refining,
            BottomTab::Adventures => BottomTab::Crafting,
        }
    }
}

/// Stepping to the next tab and back again returns to the same tab.
pub proof fn lemma_tab_round_trip(t: BottomTab)
    ensures
        tab_at(tab_index(tab_at(tab_index(t) + 1)) + 3) == t,
        tab_at(tab_index(tab_at(tab_index(t) + 3)) + 1) == t,
{
}

/// The screen-wide state around the views: the quit prompt, the focus, the
/// view shown and the active-tasks tab.
#[derive(Debug, Clone, Copy, PartialEq, Eq, Structural)]
pub struct Shell {
    pub quit_prompt_open: bool,
    pub focus: Focus,
    pub current_view: MainView,
    pub bottom_tab: BottomTab,
}

impl Shell {
    pub fn new() -> (s: Self)
        ensures
            s == (Shell {
                quit_prompt_open: false,
                focus: Focus::Terminal,
                current_view: MainView::Terminal,
                bottom_tab: BottomTab::Expeditions,
            }),
    {
        Shell { quit_prompt_open: false, focus: Focus::Terminal, current_view: MainView::Terminal, bottom_tab: BottomTab::Expeditions }
    }
}

/// Where a key goes once the shell has seen it.
#[derive(Debug, Clone, Copy, PartialEq, Eq, Structural)]
pub enum Route {
    /// Leave the game.
    Quit,
    /// The key was used up.
    Done,
    /// The key edits the text input bar.
    EditText,
    /// Skip every running timer.
    DevSkip,
    /// Give up the adventure under way.
    AbandonAdventure,
    /// Take the finished adventure's rewards.
    FinishAdventure,
    /// The key goes to the handler of this view.
    ViewKey(MainView),
}

/// Whether a key is character `c`.
pub open spec fn is_char(key: Key, c: char) -> bool {
    key == Key::Char(c)
}

/// The navigation entry a digit key picks, when there is one.
pub open spec fn nav_pick(key: Key, nav_len: int) -> Option<int> {
    match key {
        Key::Char(c) => if '1' <= c <= '8' && (c as int - '1' as int) < nav_len {
            Some(c as int - '1' as int)
        } else {
            None
        },
        _ => None,
    }
}

/// The shell, gathering, refining and adventures views after a key, and
/// where the key goes. Highest first: Ctrl+C quits; an open quit prompt
/// takes every key; a focused input bar takes every key but Esc; Esc backs
/// out of the view's sub-screen or opens the quit prompt; F12 skips the
/// timers; digits switch views (again on the terminal view: focus the input
/// bar); `[` and `]` cycle the active-tasks tabs; anything else goes to the view.
pub open spec fn routed(
    s: Shell,
    g: GatheringView,
    r: RefiningView,
    a: AdventureView,
    nav: Seq<MainView>,
    key: Key,
    ctrl: bool,
) -> (Shell, GatheringView, RefiningView, AdventureView, Route) {
    if ctrl && is_char(key, 'c') {
        (s, g, r, a, Route::Quit)
    } else if s.quit_prompt_open {
        if is_char(key, 'y') || is_char(key, 'Y') || key is Enter {
            (s, g, r, a, Route::Quit)
        } else if is_char(key, 'n') || is_char(key, 'N') || key is Esc {
            (Shell { quit_prompt_open: false, ..s }, g, r, a, Route::Done)
        } else {
            (s, g, r, a, Route::Done)
        }
    } else if s.focus is Input {
        if key is Esc {
            (Shell { focus: Focus::Terminal, ..s }, g, r, a, Route::Done)
        } else {
            (s, g, r, a, Route::EditText)
        }
    } else if key is Esc {
        if s.current_view is Gathering && g.screen is AtLocation && g.transition is Idle {
            (s, GatheringView { transition: Transition::LeavingLocation(TRANSITION_FRAMES), ..g }, r, a, Route::Done)
        } else if s.current_view is Refining && r.screen is AtStation {
            (s, g, RefiningView { screen: RefiningScreen::Stations, ..r }, a, Route::Done)
        } else if s.current_view is Adventuring && !(esc_after(a).1 is Ignored) {
            (
                s,
                g,
                r,
                esc_after(a).0,
                match esc_after(a).1 {
                    EscOutcome::Abandon => Route::AbandonAdventure,
                    EscOutcome::Finish => Route::FinishAdventure,
                    _ => Route::Done,
                },
            )
        } else {
            (Shell { quit_prompt_open: true, ..s }, g, r, a, Route::Done)
        }
    } else if key == Key::F(12) {
        (s, g, r, a, Route::DevSkip)
    } else if nav_pick(key, nav.len() as int) is Some {
        let target = nav[nav_pick(key, nav.len() as int)->0];
        if target is Terminal && s.current_view is Terminal {
            (Shell { focus: Focus::Input, ..s }, g, r, a, Route::Done)
        } else {
            (Shell { current_view: target, ..s }, g, r, a, Route::Done)
        }
    } else if is_char(key, '[') {
        (Shell { bottom_tab: tab_at(tab_index(s.bottom_tab) + 3), ..s }, g, r, a, Route::Done)
    } else if is_char(key, ']') {
        (Shell { bottom_tab: tab_at(tab_index(s.bottom_tab) + 1), ..s }, g, r, a, Route::Done)
    } else {
        (s, g, r, a, Route::ViewKey(s.current_view))
    }
}

/// Routes a key (with Ctrl held or not) through the shell: applies what the
/// shell itself does and says where the key goes next. `nav` lists the
/// views of the navigation bar in order.
pub fn route_key(
    shell: &mut Shell,
    gathering: &mut GatheringView,
    refining: &mut RefiningView,
    adventure: &mut AdventureView,
    nav: &Vec<MainView>,
    key: Key,
    ctrl: bool,
) -> (route: Route)
    ensures
        ({
            let t = routed(*old(shell), *old(gathering), *old(refining), *old(adventure), nav@, key, ctrl);
            &&& *final(shell) == t.0
            &&& *final(gathering) == t.1
            &&& *final(refining) == t.2
            &&& same_but_slots(*final(adventure), t.3)
            &&& final(adventure).party_slots == t.3.party_slots
            &&& route == t.4
        }),
{
    if ctrl && key == Key::Char('c') {
        return Route::Quit;
    }
    if shell.quit_prompt_open {
        match key {
            Key::Char('y') | Key::Char('Y') | Key::Enter => {
                return Route::Quit;
            },
            Key::Char('n') | Key::Char('N') | Key::Esc => {
                shell.quit_prompt_open = false;
                return Route::Done;
            },
            _ => {
                return Route::Done;
            },
        }
    }
    if shell.focus == Focus::Input {
        if key == Key::Esc {
            shell.focus = Focus::Terminal;
            return Route::Done;
        }
        return Route::EditText;
    }
    if key == Key::Esc {
        if shell.current_view == MainView::Gathering && gathering.screen == GatheringScreen::AtLocation
            && gathering.transition == Transition::Idle {
            gathering.transition = Transition::LeavingLocation(TRANSITION_FRAMES);
            return Route::Done;
        }
        if shell.current_view == MainView::Refining && refining.screen == RefiningScreen::AtStation {
            refining.screen = RefiningScreen::Stations;
            return Route::Done;
        }
        if shell.current_view == MainView::Adventuring {
            let outcome = adventure_esc(adventure);
            match outcome {
                EscOutcome::Ignored => {},
                EscOutcome::Consumed => {
                    return Route::Done;
                },
                EscOutcome::Abandon => {
                    return Route::AbandonAdventure;
                },
                EscOutcome::Finish => {
                    return Route::FinishAdventure;
                },
            }
        }
        shell.quit_prompt_open = true;
        return Route::Done;
    }
    if key == Key::F(12) {
        return Route::DevSkip;
    }
    if let Key::Char(c) = key {
        if let Some(idx) = char_to_view_index(c) {
            if idx < nav.len() {
                let target_view = nav[idx];
                if target_view == MainView::Terminal && shell.current_view == MainView::Terminal {
                    shell.focus = Focus::Input;
                } else {
                    shell.current_view = target_view;
                }
                return Route::Done;
            }
        }
    }
    if key == Key::Char('[') {
        shell.bottom_tab = shell.bottom_tab.prev();
        return Route::Done;
    }
    if key == Key::Char(']') {
        shell.bottom_tab = shell.bottom_tab.next();
        return Route::Done;
    }
    Route::ViewKey(shell.current_view)
}

/// A key quits the game exactly when it is Ctrl+C, or the quit prompt is
/// open and the key is `y`, `Y` or Enter. While the prompt is open nothing
/// but the prompt changes: `n`, `N` and Esc close it, any other key that
/// does not quit leaves it open.
pub proof fn lemma_quit_prompt(
    s: Shell,
    g: GatheringView,
    r: RefiningView,
    a: AdventureView,
    nav: Seq<MainView>,
    key: Key,
    ctrl: bool,
)
    ensures
        ({
            let t = routed(s, g, r, a, nav, key, ctrl);
            t.4 is Quit <==> ((ctrl && is_char(key, 'c')) || (s.quit_prompt_open && (is_char(key, 'y') || is_char(
                key,
                'Y',
            ) || key is Enter)))
        }),
        s.quit_prompt_open ==> ({
            let t = routed(s, g, r, a, nav, key, ctrl);
            &&& t.1 == g && t.2 == r && t.3 == a
            &&& t.0 == (Shell { quit_prompt_open: t.0.quit_prompt_open, ..s })
            &&& !(t.4 is Quit) ==> (!t.0.quit_prompt_open <==> (is_char(key, 'n') || is_char(key, 'N') || key is Esc))
        }),
{
}

} // verus!
