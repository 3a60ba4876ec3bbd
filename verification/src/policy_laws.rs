//! What holds of the decisions about a tab, whatever is seen of it.

use vstd::prelude::*;

use crate::policy;
use crate::policy::{ActionView, AgentStatus, TabStateView};
use crate::text;

verus! {

/// The label that a tab carries once an action on it is done.
pub open spec fn label_after(current: Seq<char>, action: ActionView) -> Seq<char> {
    match action {
        ActionView::Rename { to, .. } => to,
        _ => current,
    }
}

/// The state that is kept of a tab once an action on it is done.
pub open spec fn state_after(
    state: Option<TabStateView>,
    action: ActionView,
) -> Option<TabStateView> {
    match action {
        ActionView::Nothing => state,
        ActionView::Save(next) => Some(next),
        ActionView::Rename { state: next, .. } => Some(next),
    }
}

/// Whether a state takes a label, with or without an icon, for one of its own.
pub open spec fn recognised(state: TabStateView, label: Seq<char>) -> bool {
    match state {
        TabStateView::Tracking { labels } => policy::observed(label, labels) is Some,
        TabStateView::Pinned { label: Some(base) } => policy::owned(label, base),
        TabStateView::Pinned { label: None } => false,
    }
}

/// The base label that a state settles on for a tab.
pub open spec fn base_of(
    state: Option<TabStateView>,
    current: Seq<char>,
    generated: Option<Seq<char>>,
) -> Seq<char> {
    policy::planned(state, current, policy::usable_title(generated)).0
}

/// The state that is to be kept of a tab.
pub open spec fn next_of(
    state: Option<TabStateView>,
    current: Seq<char>,
    generated: Option<Seq<char>>,
) -> TabStateView {
    policy::planned(state, current, policy::usable_title(generated)).1
}

/// Taking the icon off a label gives back the label that it was put on.
pub proof fn law_stripping_undoes_decorating(status: AgentStatus, label: Seq<char>)
    ensures
        policy::stripped(policy::decorated(status, label)) == Some(label),
{
    assert(policy::decorated(status, label).skip(2) =~= label);
}

/// A label loses an icon only where the icon of some status had been put on it.
pub proof fn law_only_decorated_labels_are_stripped(label: Seq<char>)
    requires
        policy::stripped(label) is Some,
    ensures
        exists|status: AgentStatus|
            label == #[trigger] policy::decorated(status, policy::stripped(label)->0),
{
    let base = policy::stripped(label)->0;
    let status = if label[0] == '⣿' {
        AgentStatus::Working
    } else if label[0] == '◉' {
        AgentStatus::Blocked
    } else if label[0] == '●' {
        AgentStatus::Done
    } else if label[0] == '✓' {
        AgentStatus::Idle
    } else {
        AgentStatus::Unknown
    };
    assert(label =~= policy::decorated(status, base));
}

/// No two statuses have the same icon.
pub proof fn law_icons_differ(a: AgentStatus, b: AgentStatus)
    requires
        a != b,
    ensures
        policy::icon_of(a) != policy::icon_of(b),
{
}

/// A label and the same label with an icon are never the same.
proof fn lemma_decorating_changes(status: AgentStatus, label: Seq<char>)
    ensures
        policy::decorated(status, label) != label,
{
    assert(policy::decorated(status, label).len() == label.len() + 2);
}

/// Whatever is decided, the tab then carries its base label behind the icon of its status,
/// and the planned state is the one that is kept.
pub proof fn law_label_shows_the_status(
    state: Option<TabStateView>,
    current: Seq<char>,
    generated: Option<Seq<char>>,
    status: AgentStatus,
)
    ensures
        ({
            let action = policy::decided(state, current, generated, status);
            &&& label_after(current, action) == policy::decorated(
                status,
                base_of(state, current, generated),
            )
            &&& state_after(state, action) == Some(next_of(state, current, generated))
        }),
{
}

/// What is in a row of labels once one of them is moved, or added, to the end.
pub proof fn lemma_remembered(labels: Seq<Seq<char>>, label: Seq<char>)
    ensures
        policy::remembered(labels, label).last() == label,
        forall|known: Seq<char>|
            policy::remembered(labels, label).contains(known) <==> labels.contains(known)
                || known == label,
        labels.no_duplicates() ==> policy::remembered(labels, label).no_duplicates(),
        policy::remembered(labels, label).len() <= labels.len() + 1,
        policy::remembered(labels, label).len() >= 1,
{
    let keep = policy::other_than(label);
    let kept = labels.filter(keep);
    let all = policy::remembered(labels, label);
    broadcast use vstd::seq_lib::group_filter_ensures;

    lemma_filtered(labels, keep);
    assert(all.last() == label);
    assert forall|known: Seq<char>| all.contains(known) <==> labels.contains(known)
        || known == label by {
        if all.contains(known) {
            let i = choose|i: int| 0 <= i < all.len() && all[i] == known;
            if i < kept.len() {
                assert(kept.contains(kept[i]));
            }
        }
        if labels.contains(known) && known != label {
            let i = choose|i: int| 0 <= i < labels.len() && labels[i] == known;
            assert(keep(labels[i]));
            assert(kept.contains(known));
            let j = choose|j: int| 0 <= j < kept.len() && kept[j] == known;
            assert(all[j] == known);
        }
        if known == label {
            assert(all[all.len() - 1] == label);
        }
    }
    if labels.no_duplicates() {
        assert forall|i: int, j: int| 0 <= i < j < all.len() implies all[i] != all[j] by {
            if j == all.len() - 1 {
                assert(keep(kept[i]));
            } else {
                assert(kept[i] != kept[j]);
            }
        }
    }
}

/// Filtering a row keeps to the elements that are there, and brings in no repetition.
proof fn lemma_filtered(labels: Seq<Seq<char>>, keep: spec_fn(Seq<char>) -> bool)
    ensures
        forall|known: Seq<char>| #[trigger]
            labels.filter(keep).contains(known) ==> labels.contains(known),
        labels.no_duplicates() ==> labels.filter(keep).no_duplicates(),
    decreases labels.len(),
{
    reveal(Seq::filter);
    if labels.len() > 0 {
        let rest = labels.drop_last();
        let kept = rest.filter(keep);
        lemma_filtered(rest, keep);
        assert forall|known: Seq<char>| #[trigger]
            labels.filter(keep).contains(known) implies labels.contains(known) by {
            let all = labels.filter(keep);
            let i = choose|i: int| 0 <= i < all.len() && all[i] == known;
            if i < kept.len() {
                assert(kept.contains(kept[i]));
                assert(rest.contains(known));
                let j = choose|j: int| 0 <= j < rest.len() && rest[j] == known;
                assert(labels[j] == known);
            } else {
                assert(labels[labels.len() - 1] == known);
            }
        }
        if labels.no_duplicates() {
            let all = labels.filter(keep);
            assert forall|i: int, j: int| 0 <= i < j < all.len() implies all[i] != all[j] by {
                if j < kept.len() {
                    assert(kept[i] != kept[j]);
                } else {
                    assert(kept.contains(kept[i]));
                    assert(rest.contains(kept[i]));
                    let k = choose|k: int| 0 <= k < rest.len() && rest[k] == kept[i];
                    assert(labels[k] != labels[labels.len() - 1]);
                }
            }
        }
    }
}

/// The state that a tracked tab keeps when it shows one of its automatic labels: it holds
/// that label and the new base label, the latter at the end.
proof fn lemma_advanced(labels: Seq<Seq<char>>, seen: Seq<char>, base: Seq<char>)
    ensures
        ({
            let all = policy::remembered(policy::remembered(labels, seen), base);
            let kept = policy::recent(all);
            &&& 1 <= kept.len() <= policy::MAX_TRACKED_LABELS
            &&& kept.last() == base
            &&& kept.contains(seen)
            &&& kept.contains(base)
            &&& labels.no_duplicates() ==> kept.no_duplicates()
        }),
{
    let once = policy::remembered(labels, seen);
    let all = policy::remembered(once, base);
    let kept = policy::recent(all);
    lemma_remembered(labels, seen);
    lemma_remembered(once, base);
    assert(kept[kept.len() - 1] == base);
    if seen != base {
        let keep = policy::other_than(base);
        let before = once.drop_last();
        reveal(Seq::filter);
        assert(once.last() == seen);
        assert(once.filter(keep) =~= before.filter(keep).push(seen));
        assert(all[all.len() - 2] == seen);
        assert(kept[kept.len() - 2] == seen);
    }
    if labels.no_duplicates() && all.len() > policy::MAX_TRACKED_LABELS {
        let cut = all.len() - policy::MAX_TRACKED_LABELS;
        assert forall|i: int, j: int| 0 <= i < j < kept.len() implies kept[i] != kept[j] by {
            assert(kept[i] == all[i + cut] && kept[j] == all[j + cut]);
        }
    }
}

/// A tab never has more automatic labels than are allowed, whatever state it comes from.
pub proof fn law_history_is_bounded(
    state: Option<TabStateView>,
    current: Seq<char>,
    generated: Option<Seq<char>>,
)
    ensures
        next_of(state, current, generated) matches TabStateView::Tracking { labels } ==> 1
            <= labels.len() <= policy::MAX_TRACKED_LABELS,
{
    let title = policy::usable_title(generated);
    lemma_remembered(seq![current], policy::text_or(title, current));
    if let Some(TabStateView::Tracking { labels }) = state {
        if policy::observed(current, labels) is Some {
            let seen = policy::observed(current, labels)->0;
            lemma_advanced(labels, seen, policy::text_or(title, seen));
        }
    }
}

/// A tab that is tracked keeps its new base label as the one used last, and keeps the label
/// that it was seen with too.
pub proof fn law_history_keeps_the_observed_and_the_base_label(
    labels: Seq<Seq<char>>,
    current: Seq<char>,
    generated: Option<Seq<char>>,
)
    requires
        policy::observed(current, labels) is Some,
    ensures
        ({
            let state = Some(TabStateView::Tracking { labels });
            &&& next_of(state, current, generated) matches TabStateView::Tracking { labels: kept }
            &&& kept.last() == base_of(state, current, generated)
            &&& kept.contains(base_of(state, current, generated))
            &&& kept.contains(policy::observed(current, labels)->0)
        }),
{
    let seen = policy::observed(current, labels)->0;
    lemma_advanced(labels, seen, policy::text_or(policy::usable_title(generated), seen));
}

/// No automatic label is kept twice.
pub proof fn law_history_has_no_repetition(
    state: Option<TabStateView>,
    current: Seq<char>,
    generated: Option<Seq<char>>,
)
    requires
        state matches Some(TabStateView::Tracking { labels }) ==> labels.no_duplicates(),
    ensures
        next_of(state, current, generated) matches TabStateView::Tracking { labels }
            ==> labels.no_duplicates(),
{
    let title = policy::usable_title(generated);
    lemma_remembered(seq![current], policy::text_or(title, current));
    if let Some(TabStateView::Tracking { labels }) = state {
        if policy::observed(current, labels) is Some {
            let seen = policy::observed(current, labels)->0;
            lemma_advanced(labels, seen, policy::text_or(title, seen));
        }
    }
}

/// A row of labels once some were used one after the other.
pub open spec fn all_used(labels: Seq<Seq<char>>, uses: Seq<Seq<char>>) -> Seq<Seq<char>>
    decreases uses.len(),
{
    if uses.len() == 0 {
        labels
    } else {
        policy::remembered(all_used(labels, uses.drop_last()), uses.last())
    }
}

/// The same, where no more labels than are allowed are kept at any time.
pub open spec fn all_kept(labels: Seq<Seq<char>>, uses: Seq<Seq<char>>) -> Seq<Seq<char>>
    decreases uses.len(),
{
    if uses.len() == 0 {
        policy::recent(labels)
    } else {
        policy::recent(policy::remembered(all_kept(labels, uses.drop_last()), uses.last()))
    }
}

/// The labels that are kept are the ones used last: giving up old ones every time comes to
/// the same as looking back over all that were ever used.
pub proof fn law_history_is_what_was_used_last(
    labels: Seq<Seq<char>>,
    uses: Seq<Seq<char>>,
)
    requires
        labels.no_duplicates(),
    ensures
        all_kept(labels, uses) == policy::recent(all_used(labels, uses)),
        all_used(labels, uses).no_duplicates(),
    decreases uses.len(),
{
    if uses.len() > 0 {
        let before = uses.drop_last();
        law_history_is_what_was_used_last(labels, before);
        lemma_recent_is_enough(all_used(labels, before), uses.last());
        lemma_remembered(all_used(labels, before), uses.last());
    }
}

/// A tab that is tracked uses the label that it was seen with and then its base label.
pub proof fn law_tracked_tab_uses_two_labels(
    labels: Seq<Seq<char>>,
    current: Seq<char>,
    generated: Option<Seq<char>>,
)
    requires
        labels.no_duplicates(),
        policy::observed(current, labels) is Some,
    ensures
        ({
            let state = Some(TabStateView::Tracking { labels });
            let uses = seq![
                policy::observed(current, labels)->0,
                base_of(state, current, generated),
            ];
            next_of(state, current, generated) == (TabStateView::Tracking {
                labels: all_kept(labels, uses),
            })
        }),
{
    let state = Some(TabStateView::Tracking { labels });
    let seen = policy::observed(current, labels)->0;
    let base = base_of(state, current, generated);
    let uses = seq![seen, base];
    law_history_is_what_was_used_last(labels, uses);
    assert(uses.drop_last() =~= seq![seen]);
    assert(seq![seen].drop_last() =~= Seq::<Seq<char>>::empty());
    reveal_with_fuel(all_used, 3);
}

proof fn lemma_recent_is_enough(labels: Seq<Seq<char>>, label: Seq<char>)
    requires
        labels.no_duplicates(),
    ensures
        policy::recent(policy::remembered(policy::recent(labels), label)) == policy::recent(
            policy::remembered(labels, label),
        ),
{
    if labels.len() > policy::MAX_TRACKED_LABELS {
        let keep = policy::other_than(label);
        let cut = labels.len() - policy::MAX_TRACKED_LABELS;
        let old = labels.take(cut);
        let new = labels.skip(cut);
        assert(labels =~= old + new);
        Seq::filter_distributes_over_add(old, new, keep);
        lemma_filter_drops_one(new, label);
        let short = policy::remembered(new, label);
        let long = policy::remembered(labels, label);
        assert(long =~= old.filter(keep) + short);
        assert(policy::recent(short) =~= policy::recent(long));
    }
}

/// Of a row without repetition no more than one label is equal to a given one.
proof fn lemma_filter_drops_one(labels: Seq<Seq<char>>, label: Seq<char>)
    requires
        labels.no_duplicates(),
    ensures
        labels.filter(policy::other_than(label)).len() >= labels.len() - 1,
    decreases labels.len(),
{
    let keep = policy::other_than(label);
    reveal(Seq::filter);
    if labels.len() > 0 {
        let rest = labels.drop_last();
        if labels.last() == label {
            assert forall|i: int| 0 <= i < rest.len() implies keep(#[trigger] rest[i]) by {
                assert(labels[i] != labels[labels.len() - 1]);
            }
            lemma_nothing_to_filter(rest, keep);
        } else {
            lemma_filter_drops_one(rest, label);
        }
    }
}

/// A label that was chosen by hand stays, whatever the title and the status, while the tab
/// shows it.
pub proof fn law_pinned_label_stays(
    label: Seq<char>,
    current: Seq<char>,
    generated: Option<Seq<char>>,
    status: AgentStatus,
)
    requires
        policy::owned(current, label),
    ensures
        ({
            let state = Some(TabStateView::Pinned { label: Some(label) });
            let action = policy::decided(state, current, generated, status);
            &&& state_after(state, action) == state
            &&& label_after(current, action) == policy::decorated(status, label)
        }),
{
}

/// The state of a tab and the label that it carries once a row of titles and statuses was
/// seen of it, one after the other, and what was decided about each is done.
pub open spec fn lived_through(
    state: Option<TabStateView>,
    current: Seq<char>,
    seen: Seq<(Option<Seq<char>>, AgentStatus)>,
) -> (Option<TabStateView>, Seq<char>)
    decreases seen.len(),
{
    if seen.len() == 0 {
        (state, current)
    } else {
        let (known, label) = lived_through(state, current, seen.drop_last());
        let (generated, status) = seen.last();
        let action = policy::decided(known, label, generated, status);
        (state_after(known, action), label_after(label, action))
    }
}

/// A label that was chosen by hand stays through everything that is seen of the tab later:
/// its state never changes, and it carries the label behind the icon of its last status.
pub proof fn law_pinned_label_stays_for_good(
    label: Seq<char>,
    current: Seq<char>,
    seen: Seq<(Option<Seq<char>>, AgentStatus)>,
)
    requires
        policy::owned(current, label),
    ensures
        ({
            let state = Some(TabStateView::Pinned { label: Some(label) });
            lived_through(state, current, seen) == (
                state,
                if seen.len() == 0 {
                    current
                } else {
                    policy::decorated(seen.last().1, label)
                },
            )
        }),
    decreases seen.len(),
{
    if seen.len() > 0 {
        let state = Some(TabStateView::Pinned { label: Some(label) });
        let before = seen.drop_last();
        law_pinned_label_stays_for_good(label, current, before);
        let shown = lived_through(state, current, before).1;
        if before.len() > 0 {
            law_stripping_undoes_decorating(before.last().1, label);
        }
        law_pinned_label_stays(label, shown, seen.last().0, seen.last().1);
    }
}

/// A label that the state does not know, and that tabs do not get by themselves, is taken
/// for one chosen by hand: it is pinned, and no title replaces it.
pub proof fn law_unknown_label_is_pinned(
    state: Option<TabStateView>,
    current: Seq<char>,
    generated: Option<Seq<char>>,
    status: AgentStatus,
)
    requires
        state matches Some(known) ==> !recognised(known, current),
        !policy::default_label(current),
    ensures
        ({
            let action = policy::decided(state, current, generated, status);
            action == ActionView::Rename {
                to: policy::decorated(status, current),
                state: TabStateView::Pinned { label: Some(current) },
            }
        }),
{
    lemma_decorating_changes(status, current);
}

/// A label that tabs get by themselves, and that the state does not know, starts the tab
/// over: it is tracked from that label, and goes on to the title where there is one.
pub proof fn law_default_label_starts_over(
    state: Option<TabStateView>,
    current: Seq<char>,
    generated: Option<Seq<char>>,
    status: AgentStatus,
)
    requires
        state matches Some(known) ==> !recognised(known, current),
        policy::default_label(current),
    ensures
        ({
            let base = match generated {
                Some(title) if text::trimmed(title).len() > 0 => text::trimmed(title),
                _ => current,
            };
            let action = policy::decided(state, current, generated, status);
            &&& state_after(state, action) == Some(
                TabStateView::Tracking {
                    labels: if base == current {
                        seq![current]
                    } else {
                        seq![current, base]
                    },
                },
            )
            &&& label_after(current, action) == policy::decorated(status, base)
        }),
{
    let base = policy::text_or(policy::usable_title(generated), current);
    let keep = policy::other_than(base);
    let one = seq![current];
    reveal(Seq::filter);
    assert(one.drop_last() =~= Seq::<Seq<char>>::empty());
    assert(one.drop_last().filter(keep) =~= Seq::<Seq<char>>::empty());
    assert(policy::remembered(one, base) =~= if base == current {
        seq![current]
    } else {
        seq![current, base]
    });
}

/// A title of nothing but white space is as good as none.
pub proof fn law_blank_title_is_no_title(
    state: Option<TabStateView>,
    current: Seq<char>,
    title: Seq<char>,
    status: AgentStatus,
)
    requires
        forall|i: int| 0 <= i < title.len() ==> text::white_space(#[trigger] title[i]),
    ensures
        policy::decided(state, current, Some(title), status) == policy::decided(
            state,
            current,
            None,
            status,
        ),
{
    text::law_trimmed_text_ends_in_no_white_space(title);
}

/// A tab that is tracked and shows one of its automatic labels goes on to a title that is
/// not blank.
pub proof fn law_tracked_title_advances(
    labels: Seq<Seq<char>>,
    current: Seq<char>,
    title: Seq<char>,
    status: AgentStatus,
)
    requires
        policy::observed(current, labels) is Some,
        text::trimmed(title).len() > 0,
    ensures
        label_after(
            current,
            policy::decided(
                Some(TabStateView::Tracking { labels }),
                current,
                Some(title),
                status,
            ),
        ) == policy::decorated(status, text::trimmed(title)),
{
}

/// Every automatic label is recognised again, with the icon of any status and without one,
/// and a tab that shows it stays tracked.
pub proof fn law_retained_labels_are_recognised(
    labels: Seq<Seq<char>>,
    label: Seq<char>,
    status: AgentStatus,
    generated: Option<Seq<char>>,
)
    requires
        labels.contains(label),
    ensures
        ({
            let state = TabStateView::Tracking { labels };
            let shown = policy::decorated(status, label);
            &&& recognised(state, label)
            &&& recognised(state, shown)
            &&& next_of(Some(state), label, generated) is Tracking
            &&& next_of(Some(state), shown, generated) is Tracking
        }),
{
    law_stripping_undoes_decorating(status, label);
}

/// The state that is kept recognises both the label that the tab had and the one it is
/// given, so it does not matter whether the renaming that follows takes place.
pub proof fn law_kept_state_recognises_both_labels(
    state: Option<TabStateView>,
    current: Seq<char>,
    generated: Option<Seq<char>>,
    status: AgentStatus,
)
    ensures
        recognised(next_of(state, current, generated), current),
        recognised(
            next_of(state, current, generated),
            policy::decorated(status, base_of(state, current, generated)),
        ),
{
    let title = policy::usable_title(generated);
    let base = base_of(state, current, generated);
    law_stripping_undoes_decorating(status, base);
    lemma_remembered(seq![current], policy::text_or(title, current));
    assert(seq![current].contains(current)) by {
        assert(seq![current][0] == current);
    }
    if let Some(TabStateView::Tracking { labels }) = state {
        if policy::observed(current, labels) is Some {
            let seen = policy::observed(current, labels)->0;
            lemma_advanced(labels, seen, policy::text_or(title, seen));
        }
    }
}

/// Whether the icon of a label is seen as an icon: no automatic label reads like it, icon and
/// all. Such a label does no harm where there is a title and it was used just before the
/// last one.
pub open spec fn icon_is_seen(
    state: TabStateView,
    shown: Seq<char>,
    generated: Option<Seq<char>>,
) -> bool {
    match state {
        TabStateView::Tracking { labels } => {
            ||| !labels.contains(shown)
            ||| {
                &&& policy::usable_title(generated) is Some
                &&& forall|i: int|
                    0 <= i < labels.len() ==> (labels[i] == shown <==> i == labels.len() - 2)
            }
        },
        TabStateView::Pinned { .. } => true,
    }
}

/// Once the label and the state are as decided, a new status changes the icon and nothing
/// else, and the same status changes nothing at all. A title is either the one decided on
/// or none.
///
/// Left out is a tracked tab one of whose automatic labels reads like the new label, icon
/// and all: that one is then taken for the base label, or moves up in the row of labels.
pub proof fn law_status_changes_the_icon_alone(
    state: Option<TabStateView>,
    current: Seq<char>,
    generated: Option<Seq<char>>,
    status: AgentStatus,
    later: AgentStatus,
    later_title: Option<Seq<char>>,
)
    requires
        later_title is None || later_title == generated,
        icon_is_seen(
            next_of(state, current, generated),
            policy::decorated(status, base_of(state, current, generated)),
            later_title,
        ),
    ensures
        ({
            let base = base_of(state, current, generated);
            let next = next_of(state, current, generated);
            let shown = policy::decorated(status, base);
            let action = policy::decided(Some(next), shown, later_title, later);
            if later == status {
                action == ActionView::Nothing
            } else {
                action == ActionView::Rename { to: policy::decorated(later, base), state: next }
            }
        }),
{
    let base = base_of(state, current, generated);
    let next = next_of(state, current, generated);
    let shown = policy::decorated(status, base);
    law_stripping_undoes_decorating(status, base);
    law_history_is_bounded(state, current, generated);
    if later != status {
        law_icons_differ(status, later);
        assert(shown[0] != policy::decorated(later, base)[0]);
    }
    if let TabStateView::Tracking { labels } = next {
        lemma_kept_history(state, current, generated);
        assert(labels.contains(base));
        lemma_remembering_the_last(labels, base);
        if labels.contains(shown) {
            assert(policy::usable_title(generated) is Some);
            assert(policy::text_or(policy::usable_title(generated), shown) == base);
            lemma_decorating_changes(status, base);
            lemma_remembering_the_last_two(labels, shown, base);
        } else {
            assert(policy::observed(shown, labels) == Some(base));
        }
    }
}

/// A tracked state that is kept ends in the base label, which is in it once.
pub proof fn lemma_kept_history(
    state: Option<TabStateView>,
    current: Seq<char>,
    generated: Option<Seq<char>>,
)
    ensures
        next_of(state, current, generated) matches TabStateView::Tracking { labels } ==> {
            &&& labels.len() > 0
            &&& labels.last() == base_of(state, current, generated)
            &&& labels.contains(base_of(state, current, generated))
            &&& forall|i: int|
                0 <= i < labels.len() - 1 ==> labels[i] != base_of(state, current, generated)
        },
{
    let title = policy::usable_title(generated);
    let start = policy::text_or(title, current);
    lemma_remembered(seq![current], start);
    lemma_last_is_single(seq![current], start);
    if let Some(TabStateView::Tracking { labels }) = state {
        if policy::observed(current, labels) is Some {
            let seen = policy::observed(current, labels)->0;
            let base = policy::text_or(title, seen);
            lemma_advanced(labels, seen, base);
            lemma_last_is_single(policy::remembered(labels, seen), base);
        }
    }
}

/// A label that was moved to the end is nowhere else.
proof fn lemma_last_is_single(labels: Seq<Seq<char>>, label: Seq<char>)
    ensures
        ({
            let all = policy::remembered(labels, label);
            forall|i: int| 0 <= i < all.len() - 1 ==> all[i] != label
        }),
{
    broadcast use vstd::seq_lib::group_filter_ensures;

    let keep = policy::other_than(label);
    let kept = labels.filter(keep);
    assert forall|i: int| 0 <= i < kept.len() implies kept[i] != label by {
        assert(keep(kept[i]));
    }
}

/// Moving the last label to the end changes nothing where it is in the row once.
proof fn lemma_remembering_the_last(labels: Seq<Seq<char>>, label: Seq<char>)
    requires
        labels.len() > 0,
        labels.last() == label,
        forall|i: int| 0 <= i < labels.len() - 1 ==> labels[i] != label,
    ensures
        policy::remembered(labels, label) == labels,
{
    let keep = policy::other_than(label);
    let rest = labels.drop_last();
    reveal(Seq::filter);
    lemma_nothing_to_filter(rest, keep);
    assert(labels.filter(keep) =~= rest);
    assert(rest.push(label) =~= labels);
}

/// Moving the last two labels to the end in turn changes nothing where each is in the row
/// once.
proof fn lemma_remembering_the_last_two(
    labels: Seq<Seq<char>>,
    first: Seq<char>,
    second: Seq<char>,
)
    requires
        labels.contains(first),
        first != second,
        forall|i: int| 0 <= i < labels.len() ==> (labels[i] == first <==> i == labels.len() - 2),
        labels.last() == second,
        forall|i: int| 0 <= i < labels.len() - 1 ==> labels[i] != second,
    ensures
        policy::remembered(policy::remembered(labels, first), second) == labels,
{
    let rest = labels.take(labels.len() - 2);
    let front = labels.drop_last();
    let keep = policy::other_than(first);
    let swapped = rest.push(second).push(first);
    reveal(Seq::filter);
    assert(front.drop_last() =~= rest);
    lemma_nothing_to_filter(rest, keep);
    assert(front.filter(keep) =~= rest);
    assert(labels.filter(keep) =~= rest.push(second));
    assert(policy::remembered(labels, first) =~= swapped);
    let keep = policy::other_than(second);
    assert(swapped.drop_last() =~= rest.push(second));
    assert(rest.push(second).drop_last() =~= rest);
    lemma_nothing_to_filter(rest, keep);
    assert(rest.push(second).filter(keep) =~= rest);
    assert(swapped.filter(keep) =~= rest.push(first));
    assert(rest.push(first).push(second) =~= labels);
}

/// Filtering changes nothing where all may stay.
proof fn lemma_nothing_to_filter(labels: Seq<Seq<char>>, keep: spec_fn(Seq<char>) -> bool)
    requires
        forall|i: int| 0 <= i < labels.len() ==> keep(#[trigger] labels[i]),
    ensures
        labels.filter(keep) == labels,
    decreases labels.len(),
{
    reveal(Seq::filter);
    if labels.len() > 0 {
        lemma_nothing_to_filter(labels.drop_last(), keep);
        assert(labels.drop_last().push(labels.last()) =~= labels);
    }
}

} // verus!
