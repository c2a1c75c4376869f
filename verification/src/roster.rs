//! Lists of names: lookup, and the events addressed to each name of a list.

use vstd::prelude::*;
use crate::game::{ServerMessageView, ServerToClientMessage};

verus! {

/// The names of a list of strings, each as its sequence of characters.
pub open spec fn names_view(list: Seq<String>) -> Seq<Seq<char>> {
    list.map_values(|s: String| s@)
}

/// The names of `names` other than `name`, in order.
pub open spec fn others(names: Seq<Seq<char>>, name: Seq<char>) -> Seq<Seq<char>> {
    names.filter(|n: Seq<char>| n != name)
}

/// Where `key` first occurs once `last` is appended to `keys`.
pub proof fn lemma_index_of_first_push<K>(keys: Seq<K>, last: K, key: K)
    ensures
        keys.push(last).index_of_first(key) == if keys.contains(key) {
            keys.index_of_first(key)
        } else if key == last {
            Some(keys.len() as int)
        } else {
            None
        },
{
    let longer = keys.push(last);
    keys.index_of_first_ensures(key);
    longer.index_of_first_ensures(key);
    if keys.contains(key) {
        let i = keys.index_of_first(key).unwrap();
        assert(longer[i] == key);
        let j = longer.index_of_first(key).unwrap();
        if j < i {
            assert(keys[j] == key);
        }
    } else if key == last {
        assert(longer[keys.len() as int] == key);
        let j = longer.index_of_first(key).unwrap();
        if j < keys.len() {
            assert(keys[j] == key);
            assert(keys.contains(key));
        }
    } else {
        if longer.contains(key) {
            let j = longer.index_of_first(key).unwrap();
            assert(keys[j] == key);
            assert(keys.contains(key));
        }
    }
}

/// What is left once the first `gone` is taken out of `list`: everything
/// else stays, nothing comes in, and a list without doubles keeps none and
/// has no `gone` left.
pub proof fn lemma_remove_value<K>(list: Seq<K>, gone: K)
    ensures
        forall|k: K| k != gone && list.contains(k) ==> #[trigger] list.remove_value(gone).contains(k),
        forall|k: K| #[trigger] list.remove_value(gone).contains(k) ==> list.contains(k),
        list.remove_value(gone).len() <= list.len(),
        list.no_duplicates() ==> list.remove_value(gone).no_duplicates() && !list.remove_value(
            gone,
        ).contains(gone),
{
    list.index_of_first_ensures(gone);
    match list.index_of_first(gone) {
        Some(at) => {
            let rest = list.remove(at);
            assert forall|i: int| 0 <= i < rest.len() implies #[trigger] rest[i] == list[if i < at {
                i
            } else {
                i + 1
            }] by {}
            assert forall|k: K| k != gone && list.contains(k) implies #[trigger] rest.contains(
                k,
            ) by {
                let i = list.index_of(k);
                let j = if i < at { i } else { i - 1 };
                assert(rest[j] == k);
            }
            assert forall|k: K| #[trigger] rest.contains(k) implies list.contains(k) by {
                let i = rest.index_of(k);
                assert(list[if i < at { i } else { i + 1 }] == k);
            }
            if list.no_duplicates() {
                assert forall|i: int, j: int|
                    0 <= i < rest.len() && 0 <= j < rest.len() && i != j implies rest[i]
                    != rest[j] by {}
                if rest.contains(gone) {
                    let i = rest.index_of(gone);
                    assert(list[if i < at { i } else { i + 1 }] == gone);
                }
            }
        },
        None => {},
    }
}

/// Index of the first occurrence of `name` in `list`.
pub fn find_name(list: &Vec<String>, name: &String) -> (found: Option<usize>)
    ensures
        match found {
            Some(i) => i < list.len() && names_view(list@).index_of_first(name@) == Some(i as int),
            None => names_view(list@).index_of_first(name@) is None,
        },
{
    let ghost names = names_view(list@);
    let mut i: usize = 0;
    while i < list.len()
        invariant
            i <= list.len(),
            names == names_view(list@),
            forall|j: int| 0 <= j < i ==> names[j] != name@,
        decreases list.len() - i,
    {
        if list[i] == *name {
            proof {
                assert(names[i as int] == name@);
                names.index_of_first_ensures(name@);
            }
            return Some(i);
        }
        i += 1;
    }
    proof {
        names.index_of_first_ensures(name@);
    }
    None
}

/// A copy of `list` without the entries equal to `name`.
pub fn names_without(list: &Vec<String>, name: &String) -> (kept: Vec<String>)
    ensures
        names_view(kept@) == others(names_view(list@), name@),
{
    let ghost all = names_view(list@);
    let ghost keep = |n: Seq<char>| n != name@;
    let mut kept: Vec<String> = Vec::new();
    let mut i: usize = 0;
    proof {
        assert(all.take(0) =~= Seq::<Seq<char>>::empty());
        reveal(Seq::filter);
        assert(names_view(kept@) =~= all.take(0).filter(keep));
    }
    while i < list.len()
        invariant
            i <= list.len(),
            all == names_view(list@),
            keep == |n: Seq<char>| n != name@,
            names_view(kept@) == all.take(i as int).filter(keep),
        decreases list.len() - i,
    {
        proof {
            assert(all.take(i + 1) =~= all.take(i as int).push(all[i as int]));
            all.take(i as int).lemma_filter_push(all[i as int], keep);
        }
        if list[i] != *name {
            let ghost before = kept@;
            kept.push(list[i].clone());
            assert(names_view(kept@) =~= names_view(before).push(all[i as int]));
        }
        i += 1;
    }
    assert(all.take(i as int) =~= all);
    kept
}

/// One event on its way to one player of one session.
#[derive(Debug, PartialEq, Eq)]
pub struct Delivery {
    pub code: String,
    pub recipient: String,
    pub message: ServerToClientMessage,
}

/// What a delivery says.
pub struct DeliveryView {
    pub code: Seq<char>,
    pub recipient: Seq<char>,
    pub message: ServerMessageView,
}

impl View for Delivery {
    type V = DeliveryView;

    open spec fn view(&self) -> DeliveryView {
        DeliveryView { code: self.code@, recipient: self.recipient@, message: self.message@ }
    }
}

/// What each delivery of a list says, in order.
pub open spec fn deliveries_view(list: Seq<Delivery>) -> Seq<DeliveryView> {
    list.map_values(|d: Delivery| d@)
}

/// The same event for each of `recipients`, in their order.
pub open spec fn deliveries_to(
    code: Seq<char>,
    recipients: Seq<Seq<char>>,
    message: ServerMessageView,
) -> Seq<DeliveryView> {
    recipients.map_values(|r: Seq<char>| DeliveryView { code, recipient: r, message })
}

/// Addresses `message` to each of `recipients` in session `code`.
pub fn deliver_to(code: &String, recipients: &Vec<String>, message: &ServerToClientMessage) -> (out:
    Vec<Delivery>)
    ensures
        deliveries_view(out@) == deliveries_to(code@, names_view(recipients@), message@),
{
    let mut out: Vec<Delivery> = Vec::new();
    let mut i: usize = 0;
    while i < recipients.len()
        invariant
            i <= recipients.len(),
            deliveries_view(out@) =~= deliveries_to(
                code@,
                names_view(recipients@).take(i as int),
                message@,
            ),
        decreases recipients.len() - i,
    {
        let ghost before = out@;
        let delivery = Delivery {
            code: code.clone(),
            recipient: recipients[i].clone(),
            message: message.clone(),
        };
        out.push(delivery);
        proof {
            let names = names_view(recipients@);
            assert(names.take(i + 1) =~= names.take(i as int).push(names[i as int]));
            assert(deliveries_view(out@) =~= deliveries_view(before).push(delivery@));
        }
        i += 1;
    }
    assert(names_view(recipients@).take(i as int) =~= names_view(recipients@));
    out
}

/// Appends `more` to `events`.
pub fn append_deliveries(events: &mut Vec<Delivery>, more: Vec<Delivery>)
    ensures
        deliveries_view(final(events)@) == deliveries_view(old(events)@) + deliveries_view(more@),
{
    let ghost first = events@;
    let mut more = more;
    let ghost second = more@;
    events.append(&mut more);
    assert(deliveries_view(events@) =~= deliveries_view(first) + deliveries_view(second));
}

} // verus!
