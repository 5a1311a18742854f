//! Interactive review: the keys the user presses, what they mean, and
//! the review of a file's matches one after the other. Drawing the screen
//! and reading keys is left to the caller, which feeds the keys in.

use vstd::prelude::*;
use vstd::string::*;
use crate::rules::{views, KindView, Match, MatchKind, MatchView};
use crate::rules::custom::{listed, texts};

verus! {

/// The keys interactive review tells apart.
#[derive(Debug, Clone, Copy, PartialEq, Eq, Structural)]
pub enum KeyCode {
    Char(char),
    Esc,
    Up,
    Down,
    /// Any other key.
    Other,
}

/// What a key asks for.
#[derive(Debug, Clone, Copy, PartialEq, Eq, Structural)]
pub enum InteractiveAction {
    Accept,
    AcceptAll,
    Skip,
    SkipRule,
    Quit,
    Edit,
    ToggleHelp,
    ScrollUp,
    ScrollDown,
    /// Nothing to do.
    NoAction,
}

/// What a key asks for, on a match that is only flagged or one with a fix:
/// a flagged match cannot be applied or edited, and `f` acknowledges it.
pub open spec fn spec_process_key(key: KeyCode, is_flag_only: bool) -> InteractiveAction {
    match key {
        KeyCode::Char(c) => if c == 'y' && !is_flag_only {
            InteractiveAction::Accept
        } else if c == 'n' {
            InteractiveAction::Skip
        } else if c == 'f' && is_flag_only {
            InteractiveAction::Skip
        } else if c == 'a' && !is_flag_only {
            InteractiveAction::AcceptAll
        } else if c == 's' {
            InteractiveAction::SkipRule
        } else if c == 'e' && !is_flag_only {
            InteractiveAction::Edit
        } else if c == 'q' {
            InteractiveAction::Quit
        } else if c == '?' {
            InteractiveAction::ToggleHelp
        } else if c == 'k' {
            InteractiveAction::ScrollUp
        } else if c == 'j' {
            InteractiveAction::ScrollDown
        } else {
            InteractiveAction::NoAction
        },
        KeyCode::Esc => InteractiveAction::Quit,
        KeyCode::Up => InteractiveAction::ScrollUp,
        KeyCode::Down => InteractiveAction::ScrollDown,
        KeyCode::Other => InteractiveAction::NoAction,
    }
}

/// The action a key asks for.
pub fn process_key(key_code: KeyCode, is_flag_only: bool) -> (r: InteractiveAction)
    ensures
        r == spec_process_key(key_code, is_flag_only),
{
    match key_code {
        KeyCode::Char(c) => {
            if c == 'y' && !is_flag_only {
                InteractiveAction::Accept
            } else if c == 'n' {
                InteractiveAction::Skip
            } else if c == 'f' && is_flag_only {
                InteractiveAction::Skip
            } else if c == 'a' && !is_flag_only {
                InteractiveAction::AcceptAll
            } else if c == 's' {
                InteractiveAction::SkipRule
            } else if c == 'e' && !is_flag_only {
                InteractiveAction::Edit
            } else if c == 'q' {
                InteractiveAction::Quit
            } else if c == '?' {
                InteractiveAction::ToggleHelp
            } else if c == 'k' {
                InteractiveAction::ScrollUp
            } else if c == 'j' {
                InteractiveAction::ScrollDown
            } else {
                InteractiveAction::NoAction
            }
        },
        KeyCode::Esc => InteractiveAction::Quit,
        KeyCode::Up => InteractiveAction::ScrollUp,
        KeyCode::Down => InteractiveAction::ScrollDown,
        KeyCode::Other => InteractiveAction::NoAction,
    }
}

/// A flagged match can never be applied, whatever key is pressed.
pub proof fn lemma_flag_only_never_applied(key: KeyCode)
    ensures
        spec_process_key(key, true) != InteractiveAction::Accept,
        spec_process_key(key, true) != InteractiveAction::AcceptAll,
        spec_process_key(key, true) != InteractiveAction::Edit,
{
}


/// The index of the first match at or after `i` whose rule is not skipped
/// (the number of matches when there is none).
pub open spec fn next_unskipped(ms: Seq<MatchView>, skipped: Seq<Seq<char>>, i: int) -> int
    decreases ms.len() - i,
{
    if 0 <= i < ms.len() && skipped.contains(ms[i].rule_id) {
        next_unskipped(ms, skipped, i + 1)
    } else {
        i
    }
}

/// The matches from `i` on that have a fix and whose rule is not skipped.
pub open spec fn rest_accepted(ms: Seq<MatchView>, skipped: Seq<Seq<char>>, i: int) -> Seq<MatchView>
    decreases ms.len() - i,
{
    if i < 0 || i >= ms.len() {
        seq![]
    } else if !(ms[i].kind is FlagOnly) && !skipped.contains(ms[i].rule_id) {
        seq![ms[i]] + rest_accepted(ms, skipped, i + 1)
    } else {
        rest_accepted(ms, skipped, i + 1)
    }
}

/// The state of a review: the matches, the one under review, the rules
/// skipped, the matches accepted, the context scroll, whether help shows,
/// and whether the review is over.
pub struct SessionView {
    pub matches: Seq<MatchView>,
    pub index: int,
    pub skipped: Seq<Seq<char>>,
    pub accepted: Seq<MatchView>,
    pub scroll: int,
    pub help: bool,
    pub finished: bool,
}

/// What the caller does after a key: draw again, ask for a replacement
/// text, or stop.
#[derive(Debug, Clone, Copy, PartialEq, Eq, Structural)]
pub enum SessionStep {
    Continue,
    NeedText,
    Done,
}

/// The review moves to the next match whose rule is not skipped, with the
/// scroll and the help reset.
pub open spec fn advanced(s: SessionView) -> SessionView {
    let j = next_unskipped(s.matches, s.skipped, s.index + 1);
    SessionView { index: j, scroll: 0, help: false, finished: j >= s.matches.len(), ..s }
}

/// A match with its fix replaced by a text the user typed.
pub open spec fn edited(m: MatchView, input: Seq<char>) -> MatchView {
    MatchView { kind: KindView::Replace(input), suggestion: input, ..m }
}

/// What a key does to a review under way.
pub open spec fn after_key(s: SessionView, key: KeyCode) -> SessionView {
    let m = s.matches[s.index];
    match spec_process_key(key, m.kind is FlagOnly) {
        InteractiveAction::Accept => advanced(SessionView { accepted: s.accepted.push(m), ..s }),
        InteractiveAction::Skip => advanced(s),
        InteractiveAction::AcceptAll => SessionView {
            accepted: s.accepted.push(m) + rest_accepted(s.matches, s.skipped, s.index + 1),
            finished: true,
            ..s
        },
        InteractiveAction::SkipRule => advanced(SessionView { skipped: s.skipped.push(m.rule_id), ..s }),
        InteractiveAction::Quit => SessionView { finished: true, ..s },
        InteractiveAction::ToggleHelp => SessionView { help: !s.help, ..s },
        InteractiveAction::ScrollUp => SessionView {
            scroll: if s.scroll <= i16::MIN {
                s.scroll
            } else {
                s.scroll - 1
            },
            ..s
        },
        InteractiveAction::ScrollDown => SessionView {
            scroll: if s.scroll >= i16::MAX {
                s.scroll
            } else {
                s.scroll + 1
            },
            ..s
        },
        _ => s,
    }
}

/// The review of a file's matches, one after the other.
pub struct Session {
    matches: Vec<Match>,
    index: usize,
    skipped: Vec<String>,
    accepted: Vec<Match>,
    scroll: i16,
    help: bool,
    finished: bool,
}

impl View for Session {
    type V = SessionView;

    closed spec fn view(&self) -> SessionView {
        SessionView {
            matches: views(self.matches@),
            index: self.index as int,
            skipped: texts(self.skipped@),
            accepted: views(self.accepted@),
            scroll: self.scroll as int,
            help: self.help,
            finished: self.finished,
        }
    }
}

/// A review in a consistent state: under way, it stands on a match whose
/// rule is not skipped; over, it stands past the matches or was stopped;
/// and no flagged match was ever accepted.
pub open spec fn session_wf(s: SessionView) -> bool {
    &&& 0 <= s.index <= s.matches.len()
    &&& !s.finished ==> s.index < s.matches.len() && !s.skipped.contains(s.matches[s.index].rule_id)
    &&& s.index == s.matches.len() ==> s.finished
    &&& forall|k: int| 0 <= k < s.accepted.len() ==> !(#[trigger] s.accepted[k].kind is FlagOnly)
}

proof fn lemma_next_unskipped(ms: Seq<MatchView>, skipped: Seq<Seq<char>>, i: int)
    requires
        0 <= i,
    ensures
        i <= next_unskipped(ms, skipped, i),
        i <= ms.len() ==> next_unskipped(ms, skipped, i) <= ms.len(),
        next_unskipped(ms, skipped, i) < ms.len() ==> !skipped.contains(
            ms[next_unskipped(ms, skipped, i)].rule_id,
        ),
    decreases ms.len() - i,
{
    if 0 <= i < ms.len() && skipped.contains(ms[i].rule_id) {
        lemma_next_unskipped(ms, skipped, i + 1);
    }
}

proof fn lemma_rest_accepted(ms: Seq<MatchView>, skipped: Seq<Seq<char>>, i: int)
    ensures
        forall|k: int|
            0 <= k < rest_accepted(ms, skipped, i).len() ==> !(#[trigger] rest_accepted(
                ms,
                skipped,
                i,
            )[k].kind is FlagOnly),
    decreases ms.len() - i,
{
    if 0 <= i < ms.len() {
        lemma_rest_accepted(ms, skipped, i + 1);
        let r = rest_accepted(ms, skipped, i);
        let t = rest_accepted(ms, skipped, i + 1);
        if !(ms[i].kind is FlagOnly) && !skipped.contains(ms[i].rule_id) {
            assert forall|k: int| 0 <= k < r.len() implies !(#[trigger] r[k].kind is FlagOnly) by {
                if k > 0 {
                    assert(r[k] == t[k - 1]);
                }
            }
        }
    }
}

impl Session {
    /// A review of the matches, starting with the first; over at once when
    /// there are none.
    pub fn new(matches: Vec<Match>) -> (r: Session)
        ensures
            r@ == (SessionView {
                matches: views(matches@),
                index: 0,
                skipped: seq![],
                accepted: seq![],
                scroll: 0,
                help: false,
                finished: matches@.len() == 0,
            }),
            session_wf(r@),
    {
        let finished = matches.len() == 0;
        let s = Session {
            matches,
            index: 0,
            skipped: Vec::new(),
            accepted: Vec::new(),
            scroll: 0,
            help: false,
            finished,
        };
        assert(texts(s.skipped@) =~= Seq::<Seq<char>>::empty());
        assert(views(s.accepted@) =~= Seq::<MatchView>::empty());
        s
    }

    /// Whether the review is over.
    pub fn is_finished(&self) -> (r: bool)
        ensures
            r == self@.finished,
    {
        self.finished
    }

    /// The match under review, with its position.
    pub fn current(&self) -> (r: Option<(usize, &Match)>)
        requires
            session_wf(self@),
        ensures
            match r {
                Some((i, m)) => !self@.finished && i == self@.index && m@ == self@.matches[i as int],
                None => self@.finished,
            },
    {
        if self.finished {
            None
        } else {
            assert(views(self.matches@)[self.index as int] == self.matches@[self.index as int]@);
            Some((self.index, &self.matches[self.index]))
        }
    }

    /// How many matches the review holds.
    pub fn len(&self) -> (r: usize)
        ensures
            r == self@.matches.len(),
    {
        self.matches.len()
    }

    /// How far the context is scrolled.
    pub fn scroll(&self) -> (r: i16)
        ensures
            r as int == self@.scroll,
    {
        self.scroll
    }

    /// Whether the help shows.
    pub fn help_shown(&self) -> (r: bool)
        ensures
            r == self@.help,
    {
        self.help
    }

    /// Moves to the next match whose rule is not skipped.
    fn advance(&mut self)
        requires
            0 <= old(self)@.index < old(self)@.matches.len(),
        ensures
            final(self)@ == advanced(old(self)@),
    {
        let ghost s0 = self@;
        let n = self.matches.len();
        assert(self.index < n);
        let mut j = self.index + 1;
        proof {
            lemma_next_unskipped(s0.matches, s0.skipped, s0.index + 1);
        }
        while j < self.matches.len() && listed(self.skipped.as_slice(), self.matches[j].rule_id.as_str())
            invariant
                self@ == s0,
                s0.index < j <= s0.matches.len(),
                next_unskipped(s0.matches, s0.skipped, s0.index + 1) == next_unskipped(
                    s0.matches,
                    s0.skipped,
                    j as int,
                ),
            decreases s0.matches.len() - j,
        {
            assert(s0.matches[j as int] == self.matches@[j as int]@);
            j = j + 1;
        }
        proof {
            if j < s0.matches.len() {
                assert(s0.matches[j as int] == self.matches@[j as int]@);
            }
        }
        self.index = j;
        self.scroll = 0;
        self.help = false;
        self.finished = j >= self.matches.len();
    }

    /// What a key does: the review moves on, shows help, scrolls, or stops;
    /// an edit asks the caller for the replacement text.
    pub fn handle_key(&mut self, key: KeyCode) -> (r: SessionStep)
        requires
            session_wf(old(self)@),
        ensures
            session_wf(final(self)@),
            old(self)@.finished ==> final(self)@ == old(self)@ && r == SessionStep::Done,
            !old(self)@.finished ==> {
                let a = spec_process_key(
                    key,
                    old(self)@.matches[old(self)@.index].kind is FlagOnly,
                );
                &&& a == InteractiveAction::Edit ==> final(self)@ == old(self)@ && r == SessionStep::NeedText
                &&& a != InteractiveAction::Edit ==> final(self)@ == after_key(old(self)@, key) && r == (
                if final(self)@.finished {
                    SessionStep::Done
                } else {
                    SessionStep::Continue
                })
            },
    {
        if self.finished {
            return SessionStep::Done;
        }
        let ghost s0 = self@;
        let i = self.index;
        let n = self.matches.len();
        assert(i < n);
        assert(s0.matches[i as int] == self.matches@[i as int]@);
        let flag = matches!(self.matches[i].kind, MatchKind::FlagOnly);
        assert(flag == (s0.matches[i as int].kind is FlagOnly));
        let action = process_key(key, flag);
        match action {
            InteractiveAction::Accept => {
                let m = self.matches[i].duplicate();
                self.accepted.push(m);
                assert(views(self.accepted@) =~= s0.accepted.push(s0.matches[i as int]));
                self.advance();
                proof {
                    lemma_next_unskipped(s0.matches, s0.skipped, s0.index + 1);
                }
            },
            InteractiveAction::Skip => {
                self.advance();
                proof {
                    lemma_next_unskipped(s0.matches, s0.skipped, s0.index + 1);
                }
            },
            InteractiveAction::AcceptAll => {
                let m = self.matches[i].duplicate();
                self.accepted.push(m);
                let ghost base = views(self.accepted@);
                assert(base =~= s0.accepted.push(s0.matches[i as int]));
                let mut j = i + 1;
                while j < self.matches.len()
                    invariant
                        i < j <= s0.matches.len(),
                        s0.matches == views(self.matches@),
                        s0.skipped == texts(self.skipped@),
                        self.index == i,
                        self.scroll as int == s0.scroll,
                        self.help == s0.help,
                        base + rest_accepted(s0.matches, s0.skipped, i + 1) == views(self.accepted@)
                            + rest_accepted(s0.matches, s0.skipped, j as int),
                    decreases s0.matches.len() - j,
                {
                    assert(s0.matches[j as int] == self.matches@[j as int]@);
                    let take = !matches!(self.matches[j].kind, MatchKind::FlagOnly) && !listed(
                        self.skipped.as_slice(),
                        self.matches[j].rule_id.as_str(),
                    );
                    if take {
                        let ghost before = views(self.accepted@);
                        let m = self.matches[j].duplicate();
                        self.accepted.push(m);
                        assert(views(self.accepted@) =~= before.push(s0.matches[j as int]));
                        assert(views(self.accepted@) + rest_accepted(s0.matches, s0.skipped, j + 1)
                            =~= before + rest_accepted(s0.matches, s0.skipped, j as int));
                    }
                    j = j + 1;
                }
                assert(rest_accepted(s0.matches, s0.skipped, j as int) =~= Seq::<MatchView>::empty());
                assert(views(self.accepted@) + Seq::<MatchView>::empty() =~= views(self.accepted@));
                self.finished = true;
                proof {
                    lemma_rest_accepted(s0.matches, s0.skipped, i + 1);
                    let acc = views(self.accepted@);
                    let r = rest_accepted(s0.matches, s0.skipped, i + 1);
                    assert forall|k: int| 0 <= k < acc.len() implies !(#[trigger] acc[k].kind is FlagOnly) by {
                        if k < s0.accepted.len() {
                            assert(acc[k] == s0.accepted[k]);
                        } else if k == s0.accepted.len() {
                            assert(acc[k] == s0.matches[i as int]);
                        } else {
                            assert(acc[k] == r[k - s0.accepted.len() - 1]);
                        }
                    }
                }
            },
            InteractiveAction::SkipRule => {
                let name = self.matches[i].rule_id.clone();
                self.skipped.push(name);
                assert(texts(self.skipped@) =~= s0.skipped.push(s0.matches[i as int].rule_id));
                self.advance();
                proof {
                    lemma_next_unskipped(s0.matches, s0.skipped.push(s0.matches[i as int].rule_id), s0.index + 1);
                }
            },
            InteractiveAction::Edit => {
                return SessionStep::NeedText;
            },
            InteractiveAction::ToggleHelp => {
                self.help = !self.help;
            },
            InteractiveAction::ScrollUp => {
                if self.scroll != i16::MIN {
                    self.scroll = self.scroll - 1;
                }
            },
            InteractiveAction::ScrollDown => {
                if self.scroll != i16::MAX {
                    self.scroll = self.scroll + 1;
                }
            },
            InteractiveAction::Quit => {
                self.finished = true;
            },
            InteractiveAction::NoAction => {},
        }
        if self.finished {
            SessionStep::Done
        } else {
            SessionStep::Continue
        }
    }

    /// Accepts the match under review with the replacement text the
    /// user typed, and moves on.
    pub fn apply_edit(&mut self, input: &str)
        requires
            session_wf(old(self)@),
            !old(self)@.finished,
        ensures
            session_wf(final(self)@),
            final(self)@ == advanced(
                SessionView {
                    accepted: old(self)@.accepted.push(edited(old(self)@.matches[old(self)@.index], input@)),
                    ..old(self)@
                },
            ),
    {
        let ghost s0 = self@;
        let i = self.index;
        assert(s0.matches[i as int] == self.matches@[i as int]@);
        let mut m = self.matches[i].duplicate();
        m.kind = MatchKind::Replace(input.to_owned());
        m.suggestion = input.to_owned();
        self.accepted.push(m);
        assert(views(self.accepted@) =~= s0.accepted.push(edited(s0.matches[i as int], input@)));
        self.advance();
        proof {
            lemma_next_unskipped(s0.matches, s0.skipped, s0.index + 1);
        }
    }

    /// The matches accepted so far.
    pub fn into_accepted(self) -> (r: Vec<Match>)
        ensures
            views(r@) == self@.accepted,
    {
        self.accepted
    }
}

} // verus!
