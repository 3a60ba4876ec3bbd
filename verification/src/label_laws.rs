//! What labels are made of, which of them count as automatic, and what is decided about a tab
//! in terms of the characters that are seen of it.

use vstd::prelude::*;
use vstd::string::*;

use crate::policy;
use crate::policy::{ActionView, AgentStatus, TabStateView};
use crate::policy_laws;
use crate::text;
use crate::text_laws;

verus! {

/// Each status has an icon of its own.
pub proof fn law_every_status_has_its_icon()
    ensures
        policy::icon_of(AgentStatus::Working) == '⣿',
        policy::icon_of(AgentStatus::Blocked) == '◉',
        policy::icon_of(AgentStatus::Done) == '●',
        policy::icon_of(AgentStatus::Idle) == '✓',
        policy::icon_of(AgentStatus::Unknown) == '○',
{
}

/// A status is known by its name, and every other name stands for no known status.
pub proof fn law_statuses_go_by_their_names(name: Seq<char>)
    ensures
        policy::status_named(name) == AgentStatus::Working <==> name == seq![
            'w', 'o', 'r', 'k', 'i', 'n', 'g',
        ],
        policy::status_named(name) == AgentStatus::Blocked <==> name == seq![
            'b', 'l', 'o', 'c', 'k', 'e', 'd',
        ],
        policy::status_named(name) == AgentStatus::Done <==> name == seq!['d', 'o', 'n', 'e'],
        policy::status_named(name) == AgentStatus::Idle <==> name == seq!['i', 'd', 'l', 'e'],
{
    reveal_strlit("working");
    reveal_strlit("blocked");
    reveal_strlit("done");
    reveal_strlit("idle");
    let working = seq!['w', 'o', 'r', 'k', 'i', 'n', 'g'];
    let blocked = seq!['b', 'l', 'o', 'c', 'k', 'e', 'd'];
    let done = seq!['d', 'o', 'n', 'e'];
    let idle = seq!['i', 'd', 'l', 'e'];
    assert("working"@ =~= working);
    assert("blocked"@ =~= blocked);
    assert("done"@ =~= done);
    assert("idle"@ =~= idle);
    assert(working[0] != blocked[0]);
    assert(done[0] != idle[0]);
    assert(working.len() != done.len() && working.len() != idle.len());
    assert(blocked.len() != done.len() && blocked.len() != idle.len());
}

/// A label with an icon is the icon, a space, and then the whole label, character by
/// character.
pub proof fn law_decorated_label_holds_the_whole_label(status: AgentStatus, label: Seq<char>)
    ensures
        policy::decorated(status, label).len() == label.len() + 2,
        policy::decorated(status, label)[0] == policy::icon_of(status),
        policy::decorated(status, label)[1] == ' ',
        forall|i: int|
            0 <= i < label.len() ==> policy::decorated(status, label)[i + 2]
                == #[trigger] label[i],
{
}

/// The icon comes off a label just where the label is one of the five icons, a space and some
/// rest, and the rest is what is left.
pub proof fn law_stripping_takes_off_icon_and_space_alone(label: Seq<char>, base: Seq<char>)
    ensures
        policy::stripped(label) == Some(base) <==> {
            &&& label.len() == base.len() + 2
            &&& label[0] == '⣿' || label[0] == '◉' || label[0] == '●' || label[0] == '✓'
                || label[0] == '○'
            &&& label[1] == ' '
            &&& forall|i: int| 0 <= i < base.len() ==> label[i + 2] == #[trigger] base[i]
        },
{
    if label.len() == base.len() + 2 && forall|i: int|
        0 <= i < base.len() ==> label[i + 2] == #[trigger] base[i] {
        assert(label.skip(2) =~= base);
    }
}

/// A label belongs to a base label just where it is that label, alone or behind the icon of
/// some status.
pub proof fn law_owned_label_is_bare_or_decorated(current: Seq<char>, base: Seq<char>)
    ensures
        policy::owned(current, base) <==> current == base || exists|status: AgentStatus|
            current == #[trigger] policy::decorated(status, base),
{
    if policy::owned(current, base) && current != base {
        policy_laws::law_only_decorated_labels_are_stripped(current);
    }
    if exists|status: AgentStatus| current == #[trigger] policy::decorated(status, base) {
        let status = choose|status: AgentStatus|
            current == #[trigger] policy::decorated(status, base);
        policy_laws::law_stripping_undoes_decorating(status, base);
    }
}

/// What a tab is seen with is one of its automatic labels, and it shows that label, alone or
/// behind an icon. A label is seen as itself where it is automatic, else as the one behind
/// its icon where that is; and as nothing just where neither is.
pub proof fn law_observed_label_is_shown(
    current: Seq<char>,
    labels: Seq<Seq<char>>,
    base: Seq<char>,
    status: AgentStatus,
)
    ensures
        policy::observed(current, labels) matches Some(seen) ==> labels.contains(seen) && (current
            == seen || exists|s: AgentStatus| current == #[trigger] policy::decorated(s, seen)),
        labels.contains(current) ==> policy::observed(current, labels) == Some(current),
        labels.contains(base) && !labels.contains(policy::decorated(status, base))
            ==> policy::observed(policy::decorated(status, base), labels) == Some(base),
        labels.contains(base) && policy::owned(current, base) ==> policy::observed(
            current,
            labels,
        ) is Some,
{
    policy_laws::law_stripping_undoes_decorating(status, base);
    if policy::stripped(current) is Some {
        policy_laws::law_only_decorated_labels_are_stripped(current);
    }
}

/// Whether a text is the agent's name in small letters, in capitals, or in both.
pub open spec fn agent_name(label: Seq<char>) -> bool {
    let small = seq!['o', 'p', 'e', 'n', 'c', 'o', 'd', 'e'];
    let capital = seq!['O', 'P', 'E', 'N', 'C', 'O', 'D', 'E'];
    &&& label.len() == 8
    &&& forall|i: int|
        0 <= i < 8 ==> (#[trigger] label[i] == small[i] || label[i] == capital[i])
}

/// Tabs get by themselves just these labels: the agent's name in any case, and every row of
/// digits whose number fits in 64 bits, perhaps behind a plus sign. How long a label is plays
/// no part.
pub proof fn law_default_labels_are_numbers_and_the_agent(label: Seq<char>)
    ensures
        policy::default_label(label) <==> {
            ||| agent_name(label)
            ||| text_laws::fits(label)
            ||| exists|digits: Seq<char>| #[trigger]
                text_laws::fits(digits) && label == seq!['+'] + digits
        },
{
    text_laws::law_numbers_are_rows_of_digits(label);
    lemma_agent_name(label);
}

proof fn lemma_agent_name(label: Seq<char>)
    ensures
        text::same_but_for_case(label, "opencode"@) <==> agent_name(label),
{
    reveal_strlit("opencode");
    let name = "opencode"@;
    let small = seq!['o', 'p', 'e', 'n', 'c', 'o', 'd', 'e'];
    let capital = seq!['O', 'P', 'E', 'N', 'C', 'O', 'D', 'E'];
    assert(name =~= small);
    assert(forall|i: int| 0 <= i < 8 ==> small[i] as int == #[trigger] capital[i] as int + 32);
    assert(forall|i: int| 0 <= i < 8 ==> 'a' <= #[trigger] small[i] <= 'z');
    text_laws::law_case_of_ascii_letters_alone_is_ignored(label, name);
    if text::same_but_for_case(label, name) {
        assert forall|i: int| 0 <= i < 8 implies (#[trigger] label[i] == small[i] || label[i]
            == capital[i]) by {
            assert(small[i] as int == capital[i] as int + 32);
            assert('a' <= small[i] <= 'z');
            assert(name[i] == small[i]);
        }
    }
    if agent_name(label) {
        assert forall|i: int|
            #![trigger label[i]]
            #![trigger name[i]]
            0 <= i < label.len() implies {
            ||| label[i] == name[i]
            ||| 'A' <= label[i] <= 'Z' && name[i] as int == label[i] as int + 32
            ||| 'A' <= name[i] <= 'Z' && label[i] as int == name[i] as int + 32
        } by {
            assert(label[i] == small[i] || label[i] == capital[i]);
            assert(small[i] as int == capital[i] as int + 32);
            assert('a' <= small[i] <= 'z');
        }
    }
}

/// A label with a character that is neither a digit nor a plus sign in front, and that is not
/// the agent's name, is none that tabs get by themselves, however long it is.
pub proof fn law_other_labels_are_chosen_by_hand(label: Seq<char>, i: int)
    requires
        0 <= i < label.len(),
        !('0' <= label[i] <= '9'),
        i > 0 || label[i] != '+',
        !agent_name(label),
    ensures
        !policy::default_label(label),
{
    law_default_labels_are_numbers_and_the_agent(label);
    if exists|digits: Seq<char>| #[trigger]
        text_laws::fits(digits) && label == seq!['+'] + digits {
        let digits = choose|digits: Seq<char>| #[trigger]
            text_laws::fits(digits) && label == seq!['+'] + digits;
        assert(label[0] == '+');
        assert(label[i] == digits[i - 1]);
    }
}

/// A label that is used is the last of the row from then on, and nowhere else in it; the
/// others are all still there, in the order that they were in.
pub proof fn law_used_label_moves_to_the_end(labels: Seq<Seq<char>>, label: Seq<char>)
    ensures
        policy::remembered(labels, label).len() > 0,
        policy::remembered(labels, label).last() == label,
        policy::remembered(labels, label).drop_last() == labels.filter(
            |known: Seq<char>| known != label,
        ),
        forall|known: Seq<char>|
            policy::remembered(labels, label).contains(known) <==> labels.contains(known)
                || known == label,
{
    let keep = |known: Seq<char>| known != label;
    assert(keep =~= policy::other_than(label));
    assert(policy::remembered(labels, label).drop_last() =~= labels.filter(keep));
    policy_laws::lemma_remembered(labels, label);
}

/// Of a row of labels the last sixteen are kept, or all where there are fewer.
pub proof fn law_sixteen_labels_are_kept(labels: Seq<Seq<char>>)
    ensures
        policy::recent(labels).len() == if labels.len() < 16 {
            labels.len()
        } else {
            16
        },
        forall|i: int|
            0 <= i < policy::recent(labels).len() ==> #[trigger] policy::recent(labels)[i]
                == labels[i + labels.len() - policy::recent(labels).len()],
{
}

/// The title to use is the generated one without the white space around it, whole, and there
/// is one just where something else than white space was generated.
pub proof fn law_title_is_used_whole(generated: Option<Seq<char>>)
    ensures
        policy::usable_title(generated) == match generated {
            Some(title) => if exists|i: int|
                0 <= i < title.len() && !text::white_space(#[trigger] title[i]) {
                Some(text::trimmed(title))
            } else {
                None
            },
            None => None,
        },
{
    if let Some(title) = generated {
        text::law_trimmed_text_ends_in_no_white_space(title);
    }
}

/// Whatever the base label and the state to keep, an action brings the tab there, and none
/// is taken that is not needed: no tab is renamed to the label that it has, and no state is
/// saved that is kept already.
pub proof fn law_action_does_what_is_needed(
    state: Option<TabStateView>,
    current: Seq<char>,
    base: Seq<char>,
    next: TabStateView,
    status: AgentStatus,
)
    ensures
        ({
            let action = policy::concluded(state, current, base, next, status);
            &&& policy_laws::label_after(current, action) == policy::decorated(status, base)
            &&& policy_laws::state_after(state, action) == Some(next)
            &&& action matches ActionView::Rename { to, .. } ==> to != current
            &&& action matches ActionView::Save(saved) ==> state != Some(saved)
        }),
{
}

/// What is decided is needed: no tab is renamed to the label that it has, and no state is
/// saved that is kept already.
pub proof fn law_nothing_is_decided_without_need(
    state: Option<TabStateView>,
    current: Seq<char>,
    generated: Option<Seq<char>>,
    status: AgentStatus,
)
    ensures
        ({
            let action = policy::decided(state, current, generated, status);
            &&& action matches ActionView::Rename { to, .. } ==> to != current
            &&& action matches ActionView::Save(saved) ==> state != Some(saved)
        }),
{
}

/// Filtering twice is filtering by both.
proof fn lemma_filtered_twice(labels: Seq<Seq<char>>, a: Seq<char>, b: Seq<char>)
    ensures
        labels.filter(policy::other_than(a)).filter(policy::other_than(b)) == labels.filter(
            |known: Seq<char>| known != a && known != b,
        ),
    decreases labels.len(),
{
    reveal(Seq::filter);
    if labels.len() > 0 {
        let rest = labels.drop_last();
        lemma_filtered_twice(rest, a, b);
        let once = rest.filter(policy::other_than(a));
        assert(once.push(labels.last()).drop_last() =~= once);
    }
}

/// What is kept of a tab that is tracked and shows one of its automatic labels: that label,
/// then the title where there is one, behind all the others in the order that they were in,
/// and of all those the last sixteen. The tab then carries the title behind its icon, else
/// the label that it showed.
pub proof fn law_tracked_tab_goes_on(
    labels: Seq<Seq<char>>,
    current: Seq<char>,
    generated: Option<Seq<char>>,
    status: AgentStatus,
    seen: Seq<char>,
    base: Seq<char>,
)
    requires
        policy::observed(current, labels) == Some(seen),
        base == match generated {
            Some(title) => if exists|i: int|
                0 <= i < title.len() && !text::white_space(#[trigger] title[i]) {
                text::trimmed(title)
            } else {
                seen
            },
            None => seen,
        },
    ensures
        ({
            let state = Some(TabStateView::Tracking { labels });
            let action = policy::decided(state, current, generated, status);
            let others = labels.filter(|known: Seq<char>| known != seen && known != base);
            let used = if seen == base {
                seq![base]
            } else {
                seq![seen, base]
            };
            let all = others + used;
            &&& policy_laws::label_after(current, action) == policy::decorated(status, base)
            &&& policy_laws::state_after(state, action) == Some(
                TabStateView::Tracking {
                    labels: if all.len() > 16 {
                        all.skip(all.len() - 16)
                    } else {
                        all
                    },
                },
            )
        }),
{
    law_title_is_used_whole(generated);
    let once = policy::remembered(labels, seen);
    let twice = policy::remembered(once, base);
    let others = labels.filter(|known: Seq<char>| known != seen && known != base);
    lemma_filtered_twice(labels, seen, base);
    reveal(Seq::filter);
    assert(once.drop_last() =~= labels.filter(policy::other_than(seen)));
    assert(once.last() == seen);
    let kept = once.drop_last().filter(policy::other_than(base));
    if seen == base {
        assert(once.filter(policy::other_than(base)) =~= kept);
        assert(twice =~= others + seq![base]);
    } else {
        assert(once.filter(policy::other_than(base)) =~= kept.push(seen));
        assert(twice =~= others + seq![seen, base]);
    }
}

/// A tab that is tracked and shows one of its automatic labels keeps it, behind the icon of
/// its status, where there is no title.
pub proof fn law_tracked_label_stays_without_a_title(
    labels: Seq<Seq<char>>,
    current: Seq<char>,
    status: AgentStatus,
)
    requires
        policy::observed(current, labels) is Some,
    ensures
        policy_laws::label_after(
            current,
            policy::decided(Some(TabStateView::Tracking { labels }), current, None, status),
        ) == policy::decorated(status, policy::observed(current, labels)->0),
{
}

/// A tab without a state whose label was chosen by hand is pinned to the whole of it, and
/// carries it behind the icon, whatever the title.
pub proof fn law_hand_chosen_label_is_kept(
    current: Seq<char>,
    i: int,
    generated: Option<Seq<char>>,
    status: AgentStatus,
)
    requires
        0 <= i < current.len(),
        !('0' <= current[i] <= '9'),
        i > 0 || current[i] != '+',
        !agent_name(current),
    ensures
        policy::decided(None, current, generated, status) == (ActionView::Rename {
            to: policy::decorated(status, current),
            state: TabStateView::Pinned { label: Some(current) },
        }),
{
    law_other_labels_are_chosen_by_hand(current, i);
    policy_laws::law_unknown_label_is_pinned(None, current, generated, status);
}

/// A tab without a state whose label is one that tabs get by themselves takes a title of any
/// length, whole, and both labels count as automatic from then on.
pub proof fn law_default_label_makes_way_for_the_title(
    current: Seq<char>,
    title: Seq<char>,
    status: AgentStatus,
)
    requires
        agent_name(current) || text_laws::fits(current),
        title.len() > 0,
        !text::white_space(title.first()),
        !text::white_space(title.last()),
        title != current,
    ensures
        policy::decided(None, current, Some(title), status) == (ActionView::Rename {
            to: policy::decorated(status, title),
            state: TabStateView::Tracking { labels: seq![current, title] },
        }),
{
    law_default_labels_are_numbers_and_the_agent(current);
    text_laws::law_trimming_leaves_a_trim_text_whole(title);
    policy_laws::law_default_label_starts_over(None, current, Some(title), status);
    let to = policy::decorated(status, title);
    if agent_name(current) {
        assert(current[0] == 'o' || current[0] == 'O');
    } else {
        assert('0' <= current[0] <= '9');
    }
    assert(to[0] == policy::icon_of(status));
}

} // verus!
