//! The selection session: a cyclic pointer over the theme list, driven one
//! key at a time. Each key press yields the action that the caller performs
//! on the files.

use vstd::prelude::*;
use crate::config::current_theme_from;
use crate::order::{names_of, names_sorted};
use crate::themes::{file_names, theme_names, ThemeEntry};

verus! {

/// A key as the session sees it.
#[derive(PartialEq, Eq, Structural, Clone, Copy, Debug)]
pub enum Key {
    /// Show the next theme of the cycle.
    Next,
    /// Keep the last written configuration and finish.
    Confirm,
    /// Restore the theme that was current at startup and finish.
    Cancel,
    /// Any other key: ignored.
    Other,
}

/// What the caller does after a key press.
#[derive(Debug)]
pub enum Action {
    /// Write the output configuration as the base followed by this theme's
    /// content, and show the theme's name. The marker is not touched.
    Show { theme: String },
    /// Write the output configuration as the base followed by this theme's
    /// content, write this name to the marker file, and finish.
    Revert { theme: String },
    /// Finish, leaving the output configuration and the marker as they are.
    Accept,
    /// Nothing to do.
    Ignore,
}

/// Why a session cannot start.
#[derive(PartialEq, Eq, Structural, Clone, Copy, Debug)]
pub enum StartError {
    /// The themes directory holds no regular file: there is nothing to cycle
    /// through.
    NoThemes,
}

/// Name of a theme after `str::trim`: leading and trailing whitespace removed.
pub uninterp spec fn trimmed(s: Seq<char>) -> Seq<char>;

/// Relies on `str::trim`, which removes leading and trailing whitespace; its
/// result depends on the characters alone.
#[verifier::external_body]
fn trim_name(s: &str) -> (r: String)
    ensures
        r@ == trimmed(s@),
{
    s.trim().to_string()
}

/// The session's abstract state.
pub struct CyclerView {
    /// Theme names, in cycle order.
    pub themes: Seq<Seq<char>>,
    /// Position of the theme that the next advance shows.
    pub next: nat,
    /// Position of the theme shown last, if any was.
    pub shown: Option<nat>,
    /// The current theme read at startup, untrimmed.
    pub original: Seq<char>,
}

impl CyclerView {
    pub open spec fn wf(self) -> bool {
        &&& self.themes.len() > 0
        &&& self.next < self.themes.len()
        &&& (self.shown matches Some(k) ==> k < self.themes.len())
    }

    /// The state after one advance.
    pub open spec fn advanced(self) -> CyclerView {
        CyclerView {
            next: ((self.next + 1) as int % (self.themes.len() as int)) as nat,
            shown: Some(self.next),
            ..self
        }
    }

    /// The state after `k` advances.
    pub open spec fn advanced_times(self, k: nat) -> CyclerView
        decreases k,
    {
        if k == 0 {
            self
        } else {
            self.advanced_times((k - 1) as nat).advanced()
        }
    }

    /// The name of the theme shown last, if any was.
    pub open spec fn shown_theme(self) -> Option<Seq<char>> {
        match self.shown {
            Some(k) => Some(self.themes[k as int]),
            None => None,
        }
    }

    /// The state after a sequence of key presses that do not end the
    /// session (advances and ignored keys).
    pub open spec fn after_keys(self, keys: Seq<Key>) -> CyclerView
        decreases keys.len(),
    {
        if keys.len() == 0 {
            self
        } else {
            let v = self.after_keys(keys.drop_last());
            if keys.last() == Key::Next {
                v.advanced()
            } else {
                v
            }
        }
    }

    /// The theme whose content the last output write of `keys` appended to
    /// the base, if one of them wrote the output.
    pub open spec fn last_written(self, keys: Seq<Key>) -> Option<Seq<char>>
        decreases keys.len(),
    {
        if keys.len() == 0 {
            None
        } else {
            let v = self.after_keys(keys.drop_last());
            if keys.last() == Key::Next {
                Some(v.themes[v.next as int])
            } else {
                self.last_written(keys.drop_last())
            }
        }
    }

    /// The name that a revert restores and writes to the marker.
    pub open spec fn revert_theme(self) -> Seq<char> {
        trimmed(self.original)
    }
}

/// A selection session over a non-empty theme list.
pub struct Cycler {
    themes: Vec<String>,
    next: usize,
    shown: Option<usize>,
    original: String,
}

impl View for Cycler {
    type V = CyclerView;

    closed spec fn view(&self) -> CyclerView {
        CyclerView {
            themes: names_of(self.themes@),
            next: self.next as nat,
            shown: match self.shown {
                Some(k) => Some(k as nat),
                None => None,
            },
            original: self.original@,
        }
    }
}

impl Cycler {
    pub open spec fn wf(&self) -> bool {
        self@.wf()
    }

    /// A session that cycles through `themes` in the given order, starting
    /// from the first, with `current` as the theme current at startup.
    /// Fails exactly when `themes` is empty.
    pub fn new(themes: Vec<String>, current: String) -> (r: Result<Cycler, StartError>)
        ensures
            themes@.len() == 0 <==> r is Err,
            r matches Err(e) ==> e == StartError::NoThemes,
            r matches Ok(c) ==> c.wf() && c@ == (CyclerView {
                themes: names_of(themes@),
                next: 0,
                shown: None,
                original: current@,
            }),
    {
        if themes.len() == 0 {
            Err(StartError::NoThemes)
        } else {
            Ok(Cycler { themes, next: 0, shown: None, original: current })
        }
    }

    /// Starts a session from the listing of the themes directory and from
    /// what reading the marker file gave (`None` where it could not be read).
    /// The themes are the regular files, sorted ascending; a missing marker
    /// means the empty current theme. Fails exactly when there is no regular
    /// file.
    pub fn start(entries: Vec<ThemeEntry>, marker: Option<String>) -> (r: Result<Cycler, StartError>)
        ensures
            file_names(entries@).len() == 0 <==> r is Err,
            r matches Err(e) ==> e == StartError::NoThemes,
            r matches Ok(c) ==> {
                &&& c.wf()
                &&& c@.themes.to_multiset() == file_names(entries@).to_multiset()
                &&& names_sorted(c@.themes)
                &&& c@.next == 0
                &&& c@.shown is None
                &&& c@.original == (if marker is Some { marker.unwrap()@ } else { Seq::<char>::empty() })
            },
    {
        let current = current_theme_from(marker);
        let themes = theme_names(entries);
        Cycler::new(themes, current)
    }

    /// The theme current at startup, as read from the marker.
    pub fn current(&self) -> (r: &str)
        ensures
            r@ == self@.original,
    {
        self.original.as_str()
    }

    /// The number of themes in the cycle.
    pub fn len(&self) -> (r: usize)
        ensures
            r == self@.themes.len(),
    {
        self.themes.len()
    }

    /// The name of the theme shown last, if any was.
    pub fn shown(&self) -> (r: Option<&str>)
        requires
            self.wf(),
        ensures
            r matches Some(s) ==> self@.shown_theme() == Some(s@),
            r is None ==> self@.shown_theme() is None,
    {
        match self.shown {
            Some(k) => Some(self.themes[k].as_str()),
            None => None,
        }
    }

    /// Handles one key press and says what the caller must do.
    /// Advancing moves to the next theme of the cycle, wrapping after the
    /// last, and asks for it to be written; it never touches the marker.
    /// Cancelling asks for the trimmed startup theme to be written to the
    /// output and to the marker. Confirming asks for nothing to be written.
    pub fn press(&mut self, key: Key) -> (a: Action)
        requires
            old(self).wf(),
        ensures
            final(self).wf(),
            key == Key::Next ==> final(self)@ == old(self)@.advanced(),
            key == Key::Next ==> (a matches Action::Show { theme }
                && Some(theme@) == final(self)@.shown_theme()
                && theme@ == old(self)@.themes[old(self)@.next as int]),
            key != Key::Next ==> final(self)@ == old(self)@,
            key == Key::Cancel ==> (a matches Action::Revert { theme }
                && theme@ == old(self)@.revert_theme()),
            key == Key::Confirm ==> a is Accept,
            key == Key::Other ==> a is Ignore,
    {
        match key {
            Key::Next => {
                let k = self.next;
                let n = self.themes.len();
                assert(names_of(self.themes@).len() == n);
                let theme = self.themes[k].clone();
                self.shown = Some(k);
                self.next = if k + 1 == n { 0 } else { k + 1 };
                proof {
                    let n = self.themes@.len() as int;
                    if k + 1 < n {
                        vstd::arithmetic::div_mod::lemma_small_mod((k + 1) as nat, n as nat);
                    } else {
                        vstd::arithmetic::div_mod::lemma_mod_self_0(n);
                    }
                }
                Action::Show { theme }
            },
            Key::Cancel => Action::Revert { theme: trim_name(self.original.as_str()) },
            Key::Confirm => Action::Accept,
            Key::Other => Action::Ignore,
        }
    }
}

proof fn lemma_advanced_times(v: CyclerView, k: nat)
    requires
        v.wf(),
    ensures
        v.advanced_times(k).wf(),
        v.advanced_times(k).themes == v.themes,
        v.advanced_times(k).original == v.original,
        v.advanced_times(k).next == (v.next + k) as int % (v.themes.len() as int),
        k > 0 ==> v.advanced_times(k).shown == Some(((v.next + k - 1) as int % (v.themes.len() as int)) as nat),
    decreases k,
{
    let n = v.themes.len() as int;
    if k == 0 {
        vstd::arithmetic::div_mod::lemma_small_mod(v.next, n as nat);
    } else {
        lemma_advanced_times(v, (k - 1) as nat);
        let x = (v.next + k - 1) as int;
        vstd::arithmetic::div_mod::lemma_add_mod_noop_right(1, x, n);
        vstd::arithmetic::div_mod::lemma_small_mod(v.advanced_times((k - 1) as nat).next, n as nat);
    }
}

/// The cycle has period N, the number of themes: the (k + N)-th advance
/// shows the same theme as the k-th, and N advances bring the pointer back
/// to where it was.
pub proof fn lemma_cycle_period(v: CyclerView, k: nat)
    requires
        v.wf(),
    ensures
        v.advanced_times(k + v.themes.len()).next == v.advanced_times(k).next,
        k > 0 ==> v.advanced_times(k + v.themes.len()).shown_theme() == v.advanced_times(k).shown_theme(),
{
    let n = v.themes.len() as int;
    lemma_advanced_times(v, k);
    lemma_advanced_times(v, k + v.themes.len());
    vstd::arithmetic::div_mod::lemma_mod_add_multiples_vanish((v.next + k) as int, n);
    if k > 0 {
        vstd::arithmetic::div_mod::lemma_mod_add_multiples_vanish((v.next + k - 1) as int, n);
    }
}

/// From a fresh session, the first advance shows the first theme, and after
/// N more advances (N the number of themes) the first theme is shown again.
pub proof fn lemma_full_cycle_returns_to_first(v: CyclerView)
    requires
        v.wf(),
        v.next == 0,
    ensures
        v.advanced_times(1).shown_theme() == Some(v.themes[0]),
        v.advanced_times(1 + v.themes.len()).shown_theme() == Some(v.themes[0]),
{
    lemma_advanced_times(v, 1);
    vstd::arithmetic::div_mod::lemma_small_mod(0, v.themes.len());
    lemma_cycle_period(v, 1);
}

/// After any sequence of advances (and ignored keys) from a fresh session,
/// the theme last written to the output is the theme shown, so the output
/// holds the base followed by the shown theme's content; no marker is
/// written, and a revert still restores the startup theme.
pub proof fn lemma_output_follows_display(v: CyclerView, keys: Seq<Key>)
    requires
        v.wf(),
        v.shown is None,
        forall|i: int| 0 <= i < keys.len() ==> (#[trigger] keys[i] == Key::Next || keys[i] == Key::Other),
    ensures
        v.after_keys(keys).wf(),
        v.after_keys(keys).shown_theme() == v.last_written(keys),
        v.after_keys(keys).revert_theme() == v.revert_theme(),
    decreases keys.len(),
{
    if keys.len() > 0 {
        let rest = keys.drop_last();
        assert forall|i: int| 0 <= i < rest.len() implies (#[trigger] rest[i] == Key::Next || rest[i] == Key::Other) by {
            assert(rest[i] == keys[i]);
        }
        lemma_output_follows_display(v, rest);
    }
}

} // verus!
