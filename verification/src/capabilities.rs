//! What the runtime adds to the capabilities of a protocol module.

use crate::model::Capabilities;
use crate::text;
use crate::text::same_text;
use vstd::prelude::*;
use vstd::string::*;

verus! {

/// A list with an item added, where it is not there yet.
pub open spec fn with_item(list: Seq<Seq<char>>, item: Seq<char>) -> Seq<Seq<char>> {
    if list.contains(item) {
        list
    } else {
        list.push(item)
    }
}

/// True when a list holds an item.
fn holds(list: &Vec<String>, item: &str) -> (r: bool)
    ensures
        r == text::texts(list@).contains(item@),
{
    let ghost all = text::texts(list@);
    let mut i: usize = 0;
    while i < list.len()
        invariant
            0 <= i <= list.len(),
            all == text::texts(list@),
            forall|j: int| 0 <= j < i ==> #[trigger] all[j] != item@,
        decreases list.len() - i,
    {
        assert(all[i as int] == list@[i as int]@);
        if same_text(list[i].as_str(), item) {
            return true;
        }
        i += 1;
    }
    false
}

/// Adds an item to a list, where it is not there yet.
fn add_item(list: &mut Vec<String>, item: &str)
    ensures
        text::texts(final(list)@) == with_item(text::texts(old(list)@), item@),
{
    let ghost before = text::texts(list@);
    if !holds(list, item) {
        list.push(String::from_str(item));
        assert(text::texts(list@) =~= before.push(item@));
    }
}

/// The verbs with `write-batch`, where a module can write.
pub open spec fn with_batch(verbs: Seq<Seq<char>>) -> Seq<Seq<char>> {
    if verbs.contains("write"@) {
        with_item(verbs, "write-batch"@)
    } else {
        verbs
    }
}

/// The verbs with those of management.
pub open spec fn with_management(verbs: Seq<Seq<char>>) -> Seq<Seq<char>> {
    with_item(
        with_item(with_item(verbs, "set-config"@), "define-device"@),
        "remove-device"@,
    )
}

/// Adds the verb `write-batch` for every module that can write: the runtime runs a batch as a
/// sequence of writes.
pub fn augment_batch_caps(caps: &mut Capabilities)
    ensures
        text::texts(final(caps).command_verbs@) == with_batch(
            text::texts(old(caps).command_verbs@),
        ),
        final(caps).protocol == old(caps).protocol,
        final(caps).version == old(caps).version,
        final(caps).modes == old(caps).modes,
        final(caps).datatypes == old(caps).datatypes,
        final(caps).point_kinds == old(caps).point_kinds,
        final(caps).features == old(caps).features,
        final(caps).subscribe == old(caps).subscribe,
{
    if holds(&caps.command_verbs, "write") {
        add_item(&mut caps.command_verbs, "write-batch");
    }
}

/// Adds the management verbs and the feature `management`, which the runtime has for every
/// module.
pub fn augment_management_caps(caps: &mut Capabilities)
    ensures
        text::texts(final(caps).command_verbs@) == with_management(
            text::texts(old(caps).command_verbs@),
        ),
        text::texts(final(caps).features@) == with_item(
            text::texts(old(caps).features@),
            "management"@,
        ),
        final(caps).protocol == old(caps).protocol,
        final(caps).version == old(caps).version,
        final(caps).modes == old(caps).modes,
        final(caps).datatypes == old(caps).datatypes,
        final(caps).point_kinds == old(caps).point_kinds,
        final(caps).subscribe == old(caps).subscribe,
{
    add_item(&mut caps.command_verbs, "set-config");
    add_item(&mut caps.command_verbs, "define-device");
    add_item(&mut caps.command_verbs, "remove-device");
    add_item(&mut caps.features, "management");
}

proof fn lemma_with_item(list: Seq<Seq<char>>, item: Seq<char>, any: Seq<char>)
    ensures
        with_item(list, item).contains(any) <==> list.contains(any) || any == item,
{
    if !list.contains(item) {
        let after = list.push(item);
        assert(after[list.len() as int] == item);
        if list.contains(any) {
            let i = list.index_of(any);
            assert(after[i] == any);
        }
    }
}

/// A module that can write has `write-batch` advertised, one that cannot has not, and every verb
/// of the module's own stays.
pub proof fn batches_follow_writes(verbs: Seq<Seq<char>>, any: Seq<char>)
    ensures
        with_batch(verbs).contains(any) <==> verbs.contains(any) || (any == "write-batch"@
            && verbs.contains("write"@)),
{
    lemma_with_item(verbs, "write-batch"@, any);
}

/// Every module has the management verbs advertised, and keeps its own.
pub proof fn management_is_advertised(verbs: Seq<Seq<char>>, any: Seq<char>)
    ensures
        with_management(verbs).contains(any) <==> verbs.contains(any)
            || crate::management::management_verb(any),
{
    let one = with_item(verbs, "set-config"@);
    let two = with_item(one, "define-device"@);
    lemma_with_item(verbs, "set-config"@, any);
    lemma_with_item(one, "define-device"@, any);
    lemma_with_item(two, "remove-device"@, any);
}

/// Advertising twice is advertising once.
pub proof fn advertising_is_idempotent(verbs: Seq<Seq<char>>)
    ensures
        with_batch(with_batch(verbs)) == with_batch(verbs),
        with_management(with_management(verbs)) == with_management(verbs),
{
    lemma_with_item(verbs, "write-batch"@, "write-batch"@);
    management_is_advertised(verbs, "set-config"@);
    management_is_advertised(verbs, "define-device"@);
    management_is_advertised(verbs, "remove-device"@);
}

/// An item is added at the end, where the list does not have it, and all else stays where it was.
pub proof fn an_item_is_added_once(list: Seq<Seq<char>>, item: Seq<char>, any: Seq<char>)
    ensures
        with_item(list, item).contains(item),
        with_item(list, item).contains(any) <==> list.contains(any) || any == item,
        with_item(list, item).take(list.len() as int) == list,
        list.contains(item) ==> with_item(list, item) == list,
        with_item(list, item).len() <= list.len() + 1,
{
    lemma_with_item(list, item, item);
    lemma_with_item(list, item, any);
    assert(with_item(list, item).take(list.len() as int) =~= list);
}

/// A module gets the verbs `set-config`, `define-device` and `remove-device`, and `write-batch`
/// where it can write, and no others.
pub proof fn which_verbs_are_added(verbs: Seq<Seq<char>>, any: Seq<char>)
    ensures
        with_management(verbs).contains(any) <==> verbs.contains(any) || any == "set-config"@ || any
            == "define-device"@ || any == "remove-device"@,
        with_batch(verbs).contains(any) <==> verbs.contains(any) || (any == "write-batch"@
            && verbs.contains("write"@)),
{
    management_is_advertised(verbs, any);
    batches_follow_writes(verbs, any);
}

} // verus!
