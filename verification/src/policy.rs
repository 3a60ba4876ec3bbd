//! What to call a tab: the state kept of it, the label it should carry, and how both follow
//! from what is seen of it.

use std::collections::VecDeque;

use vstd::prelude::*;
use vstd::string::*;

use crate::text;
use crate::text::{characters, equal_but_for_case, is_number, same_text, trim};

verus! {

/// What is kept of a tab between two events.
#[derive(Debug, PartialEq, Eq)]
pub enum TabState {
    /// The label follows the generated title. `labels` are the labels that count as
    /// automatic, the one used last at the end.
    Tracking { labels: VecDeque<String> },
    /// The label was chosen by hand. A state without a label takes the one that it finds.
    Pinned { label: Option<String> },
}

/// A [`TabState`] as sequences of characters.
pub enum TabStateView {
    Tracking { labels: Seq<Seq<char>> },
    Pinned { label: Option<Seq<char>> },
}

/// How many labels of a tab count as automatic at most.
pub const MAX_TRACKED_LABELS: usize = 16;

/// What the agents of a tab are doing, taken together.
#[derive(Clone, Copy, Debug, PartialEq, Eq)]
pub enum AgentStatus {
    Working,
    Blocked,
    Done,
    Idle,
    Unknown,
}

/// What to do about a tab.
#[derive(Debug, PartialEq, Eq)]
pub enum Action {
    /// Label and state are as they should be.
    Nothing,
    /// The label is right; keep this state.
    Save(TabState),
    /// Keep this state, then change the label.
    Rename { to: String, state: TabState },
}

/// An [`Action`] as sequences of characters.
pub enum ActionView {
    Nothing,
    Save(TabStateView),
    Rename { to: Seq<char>, state: TabStateView },
}

impl View for TabState {
    type V = TabStateView;

    open spec fn view(&self) -> TabStateView {
        match self {
            TabState::Tracking { labels } => TabStateView::Tracking { labels: text::texts(labels@) },
            TabState::Pinned { label } => TabStateView::Pinned { label: text::optional_text(*label) },
        }
    }
}

impl View for Action {
    type V = ActionView;

    open spec fn view(&self) -> ActionView {
        match self {
            Action::Nothing => ActionView::Nothing,
            Action::Save(state) => ActionView::Save(state@),
            Action::Rename { to, state } => ActionView::Rename { to: to@, state: state@ },
        }
    }
}

impl Clone for TabState {
    fn clone(&self) -> (copy: Self)
        ensures
            copy@ == self@,
    {
        match self {
            TabState::Tracking { labels } => {
                let copied = labels.clone();
                proof {
                    assert(text::texts(copied@) =~= text::texts(labels@));
                }
                TabState::Tracking { labels: copied }
            },
            TabState::Pinned { label } => TabState::Pinned { label: label.clone() },
        }
    }
}

/// The character that stands for a status.
pub open spec fn icon_of(status: AgentStatus) -> char {
    match status {
        AgentStatus::Working => '⣿',
        AgentStatus::Blocked => '◉',
        AgentStatus::Done => '●',
        AgentStatus::Idle => '✓',
        AgentStatus::Unknown => '○',
    }
}

/// A label with the icon of a status and a space in front of it.
pub open spec fn decorated(status: AgentStatus, label: Seq<char>) -> Seq<char> {
    seq![icon_of(status), ' '] + label
}

/// Whether a character is the icon of a status.
pub open spec fn is_icon(c: char) -> bool {
    c == '⣿' || c == '◉' || c == '●' || c == '✓' || c == '○'
}

/// The label behind the icon and the space that a label begins with.
pub open spec fn stripped(label: Seq<char>) -> Option<Seq<char>> {
    if label.len() >= 2 && is_icon(label[0]) && label[1] == ' ' {
        Some(label.skip(2))
    } else {
        None
    }
}

/// The status that a name stands for. Names that are not known stand for no known status.
pub open spec fn status_named(name: Seq<char>) -> AgentStatus {
    if name == "working"@ {
        AgentStatus::Working
    } else if name == "blocked"@ {
        AgentStatus::Blocked
    } else if name == "done"@ {
        AgentStatus::Done
    } else if name == "idle"@ {
        AgentStatus::Idle
    } else {
        AgentStatus::Unknown
    }
}

impl AgentStatus {
    /// The status that a name stands for. Names that are not known stand for no known
    /// status.
    pub fn from_name(name: &str) -> (status: AgentStatus)
        ensures
            status == status_named(name@),
    {
        if same_text(name, "working") {
            AgentStatus::Working
        } else if same_text(name, "blocked") {
            AgentStatus::Blocked
        } else if same_text(name, "done") {
            AgentStatus::Done
        } else if same_text(name, "idle") {
            AgentStatus::Idle
        } else {
            AgentStatus::Unknown
        }
    }

    /// The icon of a status, as a text of one character.
    pub fn icon(self) -> (icon: &'static str)
        ensures
            icon@ == seq![icon_of(self)],
    {
        let icon = match self {
            AgentStatus::Working => "⣿",
            AgentStatus::Blocked => "◉",
            AgentStatus::Done => "●",
            AgentStatus::Idle => "✓",
            AgentStatus::Unknown => "○",
        };
        proof {
            reveal_strlit("⣿");
            reveal_strlit("◉");
            reveal_strlit("●");
            reveal_strlit("✓");
            reveal_strlit("○");
            assert(icon@ =~= seq![icon_of(self)]);
        }
        icon
    }
}

/// The label behind the icon and the space that a label begins with.
pub fn strip_status(label: &str) -> (base: Option<&str>)
    ensures
        match base {
            Some(text) => stripped(label@) == Some(text@),
            None => stripped(label@) is None,
        },
{
    let chars = characters(label);
    if chars.len() < 2 || chars[1] != ' ' {
        return None;
    }
    let first = chars[0];
    if first == '⣿' || first == '◉' || first == '●' || first == '✓' || first == '○' {
        Some(label.substring_char(2, chars.len()))
    } else {
        None
    }
}

/// Whether a label is one that tabs get by themselves: a number, or the agent's name.
pub open spec fn default_label(label: Seq<char>) -> bool {
    text::same_but_for_case(label, "opencode"@) || text::number(label)
}

/// Whether a label is one that tabs get by themselves: a number, or the agent's name.
pub fn is_default_label(label: &str) -> (found: bool)
    ensures
        found == default_label(label@),
{
    equal_but_for_case(label, "opencode") || is_number(label)
}

/// Whether a label is a given base label, with or without an icon in front.
pub open spec fn owned(current: Seq<char>, base: Seq<char>) -> bool {
    current == base || stripped(current) == Some(base)
}

/// Whether a label is a given base label, with or without an icon in front.
pub fn is_owned_label(current_label: &str, base_label: &str) -> (found: bool)
    ensures
        found == owned(current_label@, base_label@),
{
    if same_text(current_label, base_label) {
        return true;
    }
    match strip_status(current_label) {
        Some(base) => same_text(base, base_label),
        None => false,
    }
}

/// Which of a row of base labels a label shows, with or without an icon in front. A base
/// label that itself begins with an icon is found first.
pub open spec fn observed(current: Seq<char>, labels: Seq<Seq<char>>) -> Option<Seq<char>> {
    if labels.contains(current) {
        Some(current)
    } else {
        match stripped(current) {
            Some(base) if labels.contains(base) => Some(base),
            _ => None,
        }
    }
}

/// Whether a row of strings holds a text.
fn holds(labels: &VecDeque<String>, label: &str) -> (found: bool)
    ensures
        found == text::texts(labels@).contains(label@),
{
    let mut i: usize = 0;
    while i < labels.len()
        invariant
            i <= labels@.len(),
            forall|k: int| 0 <= k < i ==> text::texts(labels@)[k] != label@,
        decreases labels@.len() - i,
    {
        if same_text(labels[i].as_str(), label) {
            proof {
                assert(text::texts(labels@)[i as int] == label@);
            }
            return true;
        }
        i += 1;
    }
    false
}

/// Which of a tab's automatic labels a label shows, with or without an icon in front.
pub fn tracked_base(current_label: &str, labels: &VecDeque<String>) -> (base: Option<String>)
    ensures
        text::optional_text(base) == observed(current_label@, text::texts(labels@)),
{
    if holds(labels, current_label) {
        return Some(current_label.to_owned());
    }
    match strip_status(current_label) {
        Some(base) => if holds(labels, base) {
            Some(base.to_owned())
        } else {
            None
        },
        None => None,
    }
}

/// The texts that differ from a given one.
pub open spec fn other_than(label: Seq<char>) -> spec_fn(Seq<char>) -> bool {
    |known: Seq<char>| known != label
}

/// A row of labels with a given one moved, or added, to the end.
pub open spec fn remembered(labels: Seq<Seq<char>>, label: Seq<char>) -> Seq<Seq<char>> {
    labels.filter(other_than(label)).push(label)
}

/// Moves a label to the end of a row of labels, or adds it there.
pub fn remember(labels: &mut VecDeque<String>, label: &str)
    ensures
        text::texts(final(labels)@) == remembered(text::texts(old(labels)@), label@),
{
    let ghost before = text::texts(labels@);
    let ghost keep = other_than(label@);
    let count: usize = labels.len();
    let mut seen: usize = 0;
    proof {
        reveal(Seq::filter);
        assert(before.skip(0) + before.take(0).filter(keep) =~= before);
    }
    while seen < count
        invariant
            seen <= count == before.len(),
            keep == other_than(label@),
            text::texts(labels@) == before.skip(seen as int) + before.take(seen as int).filter(keep),
        decreases count - seen,
    {
        let ghost now = labels@;
        proof {
            assert(text::texts(now).len() > 0);
            assert(text::texts(now)[0] == before[seen as int]);
            assert(before.take(seen + 1).drop_last() =~= before.take(seen as int));
            reveal(Seq::filter);
        }
        if let Some(known) = labels.pop_front() {
            proof {
                assert(text::texts(labels@) =~= text::texts(now).skip(1));
                assert(text::texts(labels@) =~= before.skip(seen + 1) + before.take(
                    seen as int,
                ).filter(keep));
            }
            if !same_text(known.as_str(), label) {
                let ghost rest = labels@;
                labels.push_back(known);
                proof {
                    assert(text::texts(labels@) =~= text::texts(rest).push(known@));
                    assert(text::texts(labels@) =~= before.skip(seen + 1) + before.take(
                        seen + 1,
                    ).filter(keep));
                }
            }
        }
        seen += 1;
    }
    let ghost kept = labels@;
    labels.push_back(label.to_owned());
    proof {
        assert(before.take(before.len() as int) =~= before);
        assert(text::texts(kept) =~= before.filter(keep));
        assert(text::texts(labels@) =~= text::texts(kept).push(label@));
    }
}

/// The last labels of a row, as many as count as automatic.
pub open spec fn recent(labels: Seq<Seq<char>>) -> Seq<Seq<char>> {
    if labels.len() > MAX_TRACKED_LABELS {
        labels.skip(labels.len() - MAX_TRACKED_LABELS)
    } else {
        labels
    }
}

/// The title to use of one that was generated: none where nothing but white space is there.
pub open spec fn usable_title(generated: Option<Seq<char>>) -> Option<Seq<char>> {
    match generated {
        Some(title) if text::trimmed(title).len() > 0 => Some(text::trimmed(title)),
        _ => None,
    }
}

/// A text, or another one where there is none.
pub open spec fn text_or(text: Option<Seq<char>>, other: Seq<char>) -> Seq<char> {
    match text {
        Some(t) => t,
        None => other,
    }
}

/// The base label that a tab should carry, and the state to keep of it.
pub open spec fn planned(
    state: Option<TabStateView>,
    current: Seq<char>,
    title: Option<Seq<char>>,
) -> (Seq<char>, TabStateView) {
    match state {
        Some(TabStateView::Pinned { label: Some(label) }) if owned(current, label) => {
            (label, TabStateView::Pinned { label: Some(label) })
        },
        Some(TabStateView::Tracking { labels }) if observed(current, labels) is Some => {
            let seen = observed(current, labels)->0;
            let base = text_or(title, seen);
            let labels = recent(remembered(remembered(labels, seen), base));
            (base, TabStateView::Tracking { labels })
        },
        _ => if default_label(current) {
            let base = text_or(title, current);
            (base, TabStateView::Tracking { labels: remembered(seq![current], base) })
        } else {
            (current, TabStateView::Pinned { label: Some(current) })
        },
    }
}

/// What to do about a tab whose base label and next state are settled.
pub open spec fn concluded(
    state: Option<TabStateView>,
    current: Seq<char>,
    base: Seq<char>,
    next: TabStateView,
    status: AgentStatus,
) -> ActionView {
    if current != decorated(status, base) {
        ActionView::Rename { to: decorated(status, base), state: next }
    } else if state == Some(next) {
        ActionView::Nothing
    } else {
        ActionView::Save(next)
    }
}

/// What to do about a tab.
pub open spec fn decided(
    state: Option<TabStateView>,
    current: Seq<char>,
    generated: Option<Seq<char>>,
    status: AgentStatus,
) -> ActionView {
    let (base, next) = planned(state, current, usable_title(generated));
    concluded(state, current, base, next, status)
}

/// The state of a tab that may have none.
pub open spec fn optional_state(state: Option<&TabState>) -> Option<TabStateView> {
    match state {
        Some(s) => Some(s@),
        None => None,
    }
}

/// Whether two rows of strings are the same row of texts.
fn same_labels(a: &VecDeque<String>, b: &VecDeque<String>) -> (same: bool)
    ensures
        same == (text::texts(a@) == text::texts(b@)),
{
    if a.len() != b.len() {
        proof {
            assert(text::texts(a@).len() != text::texts(b@).len());
        }
        return false;
    }
    let mut i: usize = 0;
    while i < a.len()
        invariant
            a@.len() == b@.len(),
            i <= a@.len(),
            forall|k: int| 0 <= k < i ==> text::texts(a@)[k] == text::texts(b@)[k],
        decreases a@.len() - i,
    {
        if !same_text(a[i].as_str(), b[i].as_str()) {
            proof {
                assert(text::texts(a@)[i as int] != text::texts(b@)[i as int]);
            }
            return false;
        }
        i += 1;
    }
    proof {
        assert(text::texts(a@) =~= text::texts(b@));
    }
    true
}

/// Whether two states hold the same labels.
pub fn same_state(a: &TabState, b: &TabState) -> (same: bool)
    ensures
        same == (a@ == b@),
{
    match (a, b) {
        (TabState::Tracking { labels: x }, TabState::Tracking { labels: y }) => {
            same_labels(x, y)
        },
        (TabState::Pinned { label: x }, TabState::Pinned { label: y }) => match (x, y) {
            (Some(l), Some(m)) => same_text(l.as_str(), m.as_str()),
            (None, None) => true,
            _ => false,
        },
        _ => false,
    }
}

/// What to do about a tab whose base label and next state are settled: rename it where its
/// label is not the base label behind the icon, else save the state where it is new.
pub fn finish(
    state: Option<&TabState>,
    current_label: &str,
    base_label: String,
    next: TabState,
    status: AgentStatus,
) -> (action: Action)
    ensures
        action@ == concluded(optional_state(state), current_label@, base_label@, next@, status),
{
    let mut desired = status.icon().to_owned();
    desired.append(" ");
    desired.append(base_label.as_str());
    proof {
        reveal_strlit(" ");
        assert(desired@ =~= decorated(status, base_label@));
    }
    if same_text(current_label, desired.as_str()) {
        let unchanged = match state {
            Some(known) => same_state(known, &next),
            None => false,
        };
        if unchanged {
            Action::Nothing
        } else {
            Action::Save(next)
        }
    } else {
        Action::Rename { to: desired, state: next }
    }
}

/// The plan for a tab whose label is one that tabs get by themselves: track it from there.
fn track_from(current_label: &str, title: Option<&str>) -> (plan: (String, TabState))
    ensures
        plan.0@ == text_or(text::optional_slice(title), current_label@),
        plan.1@ == (TabStateView::Tracking {
            labels: remembered(seq![current_label@], plan.0@),
        }),
{
    let mut labels: VecDeque<String> = VecDeque::new();
    labels.push_back(current_label.to_owned());
    proof {
        assert(text::texts(labels@) =~= seq![current_label@]);
    }
    let base_label = match title {
        Some(text) => text.to_owned(),
        None => current_label.to_owned(),
    };
    remember(&mut labels, base_label.as_str());
    (base_label, TabState::Tracking { labels })
}

/// The plan for a tab whose label was chosen by hand: keep it.
fn pin(label: &str) -> (plan: (String, TabState))
    ensures
        plan.0@ == label@,
        plan.1@ == (TabStateView::Pinned { label: Some(label@) }),
{
    (label.to_owned(), TabState::Pinned { label: Some(label.to_owned()) })
}

/// What to do about a tab, from the state kept of it, the label it carries, the title that
/// was generated for it and the status of its agents.
///
/// A pinned label stays, and so does the label of a tab that is tracked and shows one of its
/// automatic labels, unless there is a new title. Any other label starts the tab over: one
/// that tabs get by themselves is tracked, and one chosen by hand is pinned.
pub fn decide(
    state: Option<&TabState>,
    current_label: &str,
    generated_title: Option<&str>,
    status: AgentStatus,
) -> (action: Action)
    ensures
        action@ == decided(
            optional_state(state),
            current_label@,
            text::optional_slice(generated_title),
            status,
        ),
{
    let title: Option<&str> = match generated_title {
        Some(text) => {
            let rest = trim(text);
            if rest.is_empty() {
                None
            } else {
                Some(rest)
            }
        },
        None => None,
    };
    let (base_label, next): (String, TabState) = match state {
        Some(TabState::Pinned { label: Some(label) }) if is_owned_label(
            current_label,
            label.as_str(),
        ) => pin(label.as_str()),
        Some(TabState::Tracking { labels }) => match tracked_base(current_label, labels) {
            Some(observed_label) => advance(labels, observed_label, title),
            None => start_over(current_label, title),
        },
        _ => start_over(current_label, title),
    };
    finish(state, current_label, base_label, next, status)
}

/// The plan for a tab that shows nothing known: track or pin what it shows.
fn start_over(current_label: &str, title: Option<&str>) -> (plan: (String, TabState))
    ensures
        (plan.0@, plan.1@) == planned(None, current_label@, text::optional_slice(title)),
{
    if is_default_label(current_label) {
        track_from(current_label, title)
    } else {
        pin(current_label)
    }
}

/// The plan for a tab that shows one of its automatic labels: go on to the title, where
/// there is one, and keep the labels used last.
fn advance(labels: &VecDeque<String>, observed_label: String, title: Option<&str>) -> (plan: (
    String,
    TabState,
))
    ensures
        plan.0@ == text_or(text::optional_slice(title), observed_label@),
        plan.1@ == (TabStateView::Tracking {
            labels: recent(
                remembered(remembered(text::texts(labels@), observed_label@), plan.0@),
            ),
        }),
{
    let ghost known = labels@;
    let mut labels = labels.clone();
    proof {
        assert(text::texts(labels@) =~= text::texts(known));
    }
    remember(&mut labels, observed_label.as_str());
    let base_label = match title {
        Some(text) => text.to_owned(),
        None => observed_label.clone(),
    };
    remember(&mut labels, base_label.as_str());
    let ghost all = text::texts(labels@);
    proof {
        assert(all.skip(0) =~= all);
    }
    while labels.len() > MAX_TRACKED_LABELS
        invariant
            labels@.len() <= all.len(),
            text::texts(labels@) == all.skip(all.len() - labels@.len()),
            all.len() > MAX_TRACKED_LABELS ==> labels@.len() >= MAX_TRACKED_LABELS,
            all.len() <= MAX_TRACKED_LABELS ==> labels@.len() == all.len(),
        decreases labels@.len(),
    {
        let ghost now = labels@;
        labels.pop_front();
        proof {
            assert(text::texts(labels@) =~= text::texts(now).skip(1));
            assert(text::texts(labels@) =~= all.skip(all.len() - labels@.len()));
        }
    }
    (base_label, TabState::Tracking { labels })
}

} // verus!
