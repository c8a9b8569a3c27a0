//! Grouping of decoded messages by the name of their layout.

use crate::parser::{messages_view, pairs_view, ParsedMessage, ParsedSpec};
use vstd::prelude::*;

verus! {

/// The decoded messages of one name, in the order in which they came.
#[derive(Debug)]
pub struct MessageGroup {
    pub name: String,
    pub messages: Vec<ParsedMessage>,
}

/// A group as plain text.
pub struct GroupSpec {
    pub name: Seq<char>,
    pub messages: Seq<ParsedSpec>,
}

impl View for MessageGroup {
    type V = GroupSpec;

    open spec fn view(&self) -> GroupSpec {
        GroupSpec { name: self.name@, messages: messages_view(self.messages@) }
    }
}

/// Groups as plain text, in the same order.
pub open spec fn groups_view(groups: Seq<MessageGroup>) -> Seq<GroupSpec> {
    Seq::new(groups.len(), |i: int| groups[i]@)
}

/// The messages among `messages` that bear the name, in their order.
pub open spec fn with_name(messages: Seq<ParsedSpec>, name: Seq<char>) -> Seq<ParsedSpec>
    decreases messages.len(),
{
    if messages.len() == 0 {
        Seq::empty()
    } else if messages.last().name == name {
        with_name(messages.drop_last(), name).push(messages.last())
    } else {
        with_name(messages.drop_last(), name)
    }
}

/// The names of the messages, each once, in the order of first appearance.
pub open spec fn names_in_order(messages: Seq<ParsedSpec>) -> Seq<Seq<char>>
    decreases messages.len(),
{
    if messages.len() == 0 {
        Seq::empty()
    } else {
        let earlier = names_in_order(messages.drop_last());
        if earlier.contains(messages.last().name) {
            earlier
        } else {
            earlier.push(messages.last().name)
        }
    }
}

/// The grouping of `messages`: one group for each name, in the order in
/// which the names first appear, each holding all messages of its name.
pub open spec fn grouped(messages: Seq<ParsedSpec>) -> Seq<GroupSpec> {
    let names = names_in_order(messages);
    Seq::new(
        names.len(),
        |i: int| GroupSpec { name: names[i], messages: with_name(messages, names[i]) },
    )
}

/// The names in order of first appearance hold no name twice, and hold
/// exactly the names of the messages.
pub proof fn lemma_names_in_order(messages: Seq<ParsedSpec>)
    ensures
        names_in_order(messages).no_duplicates(),
        forall|i: int|
            0 <= i < messages.len() ==> names_in_order(messages).contains(
                #[trigger] messages[i].name,
            ),
        forall|k: int|
            0 <= k < names_in_order(messages).len() ==> with_name(
                messages,
                #[trigger] names_in_order(messages)[k],
            ).len() > 0,
    decreases messages.len(),
{
    if messages.len() > 0 {
        let init = messages.drop_last();
        let earlier = names_in_order(init);
        let name = messages.last().name;
        lemma_names_in_order(init);
        let names = names_in_order(messages);
        assert forall|i: int| 0 <= i < messages.len() implies names.contains(
            #[trigger] messages[i].name,
        ) by {
            if i < messages.len() - 1 {
                assert(init[i] == messages[i]);
                let k = choose|k: int| 0 <= k < earlier.len() && earlier[k] == init[i].name;
                assert(names[k] == messages[i].name);
            } else {
                if earlier.contains(name) {
                } else {
                    assert(names[earlier.len() as int] == name);
                }
            }
        }
        assert forall|k: int| 0 <= k < names.len() implies with_name(
            messages,
            #[trigger] names[k],
        ).len() > 0 by {
            if k < earlier.len() {
                assert(names[k] == earlier[k]);
            }
        }
    }
}

/// Copies a decoded message.
pub fn clone_message(message: &ParsedMessage) -> (r: ParsedMessage)
    ensures
        r@ == message@,
{
    let mut fields: Vec<(String, String)> = Vec::new();
    let mut i: usize = 0;
    while i < message.fields.len()
        invariant
            i <= message.fields@.len(),
            pairs_view(fields@) == pairs_view(message.fields@).take(i as int),
        decreases message.fields@.len() - i,
    {
        let ghost before = fields@;
        let name: String = message.fields[i].0.clone();
        let value: String = message.fields[i].1.clone();
        fields.push((name, value));
        proof {
            assert(pairs_view(fields@) =~= pairs_view(before).push((name@, value@)));
            assert(pairs_view(message.fields@).take(i + 1) =~= pairs_view(message.fields@).take(
                i as int,
            ).push(pairs_view(message.fields@)[i as int]));
        }
        i = i + 1;
    }
    proof {
        assert(pairs_view(message.fields@).take(i as int) =~= pairs_view(message.fields@));
    }
    ParsedMessage { log_type: message.log_type, name: message.name.clone(), fields }
}

/// Groups decoded messages by name.
///
/// There is one group for each name, in the order in which the names first
/// appear; a group holds copies of all messages of its name, in their order.
pub fn group_by_type(messages: &[ParsedMessage]) -> (groups: Vec<MessageGroup>)
    ensures
        groups_view(groups@) == grouped(messages_view(messages@)),
{
    let ghost all = messages_view(messages@);
    let mut groups: Vec<MessageGroup> = Vec::new();
    let mut i: usize = 0;
    proof {
        assert(groups_view(groups@) =~= grouped(all.take(0)));
    }
    while i < messages.len()
        invariant
            i <= messages@.len(),
            all == messages_view(messages@),
            groups_view(groups@) == grouped(all.take(i as int)),
        decreases messages@.len() - i,
    {
        let message: &ParsedMessage = &messages[i];
        let ghost seen = all.take(i as int);
        let ghost names = names_in_order(seen);
        proof {
            assert(all.take(i + 1).drop_last() =~= seen);
            assert(all.take(i + 1).last() == message@);
        }
        proof {
            assert(groups_view(groups@).len() == groups@.len());
            assert(grouped(seen).len() == names.len());
            assert forall|j: int| 0 <= j < groups@.len() implies groups@[j].name@
                == names[j] by {
                assert(groups_view(groups@)[j] == grouped(seen)[j]);
            }
        }
        let mut k: usize = 0;
        while k < groups.len() && !(groups[k].name == message.name)
            invariant
                k <= groups@.len(),
                groups@.len() == names.len(),
                forall|j: int| 0 <= j < groups@.len() ==> groups@[j].name@ == names[j],
                groups_view(groups@) == grouped(seen),
                names == names_in_order(seen),
                forall|j: int| 0 <= j < k ==> names[j] != message.name@,
            decreases groups@.len() - k,
        {
            k = k + 1;
        }
        let copy: ParsedMessage = clone_message(message);
        let ghost old_groups = groups@;
        if k < groups.len() {
            let mut group: MessageGroup = groups.remove(k);
            group.messages.push(copy);
            groups.insert(k, group);
            proof {
                assert(names[k as int] == message.name@);
                assert(names.contains(message.name@));
                lemma_names_in_order(seen);
                assert(groups_view(groups@) =~= grouped(all.take(i + 1))) by {
                    assert forall|j: int| 0 <= j < groups@.len() implies groups_view(groups@)[j]
                        == grouped(all.take(i + 1))[j] by {
                        if j == k {
                            assert(groups@[j].messages@ == old_groups[j].messages@.push(copy));
                            assert(messages_view(groups@[j].messages@) =~= messages_view(
                                old_groups[j].messages@,
                            ).push(copy@));
                            assert(groups_view(old_groups)[j] == grouped(seen)[j]);
                        } else {
                            assert(groups@[j] == old_groups[j]);
                            assert(groups_view(old_groups)[j] == grouped(seen)[j]);
                            assert(names[j] != names[k as int]);
                        }
                    }
                }
            }
        } else {
            let mut members: Vec<ParsedMessage> = Vec::new();
            members.push(copy);
            groups.push(MessageGroup { name: message.name.clone(), messages: members });
            proof {
                assert(!names.contains(message.name@));
                lemma_with_name_absent(seen, message.name@);
                assert(groups_view(groups@) =~= grouped(all.take(i + 1))) by {
                    assert forall|j: int| 0 <= j < groups@.len() implies groups_view(groups@)[j]
                        == grouped(all.take(i + 1))[j] by {
                        if j < old_groups.len() {
                            assert(groups@[j] == old_groups[j]);
                            assert(groups_view(old_groups)[j] == grouped(seen)[j]);
                            assert(names[j] != message.name@);
                        } else {
                            assert(messages_view(members@) =~= seq![copy@]);
                            assert(with_name(seen, message.name@).push(message@) =~= seq![
                                copy@,
                            ]);
                        }
                    }
                }
            }
        }
        i = i + 1;
    }
    proof {
        assert(all.take(i as int) =~= all);
    }
    groups
}

/// No message bears a name that is not among the names in order.
pub proof fn lemma_with_name_absent(messages: Seq<ParsedSpec>, name: Seq<char>)
    requires
        !names_in_order(messages).contains(name),
    ensures
        with_name(messages, name) == Seq::<ParsedSpec>::empty(),
    decreases messages.len(),
{
    if messages.len() > 0 {
        let init = messages.drop_last();
        let earlier = names_in_order(init);
        let names = names_in_order(messages);
        if earlier.contains(name) {
            let k = choose|k: int| 0 <= k < earlier.len() && earlier[k] == name;
            assert(names[k] == name);
        }
        if messages.last().name == name {
            if earlier.contains(name) {
            } else {
                assert(names[earlier.len() as int] == name);
            }
        }
        lemma_with_name_absent(init, name);
    }
}

} // verus!
