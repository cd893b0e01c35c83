//! Telling noise (social network notifications, newsletters, marketing and
//! automated no-reply mail) from the mail that needs attention.
use vstd::prelude::*;
use crate::email::{lowercase, to_lowercase};
use crate::text::{contains, contains_exec, to_chars};
use crate::Item;

verus! {

/// An item is noise when its sender in lower case (std's `to_lowercase`)
/// contains "linkedin.com", "newsletter@", "marketing", "no-reply" or
/// "noreply", or its title in lower case contains "newsletter".
pub open spec fn noisy(item: Item) -> bool {
    let from = lowercase(item.from@);
    let title = lowercase(item.title@);
    ||| contains(from, "linkedin.com"@)
    ||| contains(title, "newsletter"@)
    ||| contains(from, "newsletter@"@)
    ||| contains(from, "marketing"@)
    ||| contains(from, "no-reply"@)
    ||| contains(from, "noreply"@)
}

/// Whether the item is noise (see `noisy`).
pub fn is_noise(item: &Item) -> (r: bool)
    ensures
        r == noisy(*item),
{
    let from = to_chars(to_lowercase(item.from.as_str()).as_str());
    let title = to_chars(to_lowercase(item.title.as_str()).as_str());
    contains_exec(&from, &to_chars("linkedin.com")) || contains_exec(&title, &to_chars("newsletter"))
        || contains_exec(&from, &to_chars("newsletter@")) || contains_exec(
        &from,
        &to_chars("marketing"),
    ) || contains_exec(&from, &to_chars("no-reply")) || contains_exec(&from, &to_chars("noreply"))
}

/// The items of `s` that are not noise, in their order.
pub open spec fn relevant(s: Seq<Item>) -> Seq<Item>
    decreases s.len(),
{
    if s.len() == 0 {
        Seq::empty()
    } else if noisy(s.last()) {
        relevant(s.drop_last())
    } else {
        relevant(s.drop_last()).push(s.last())
    }
}

/// Copies of the items that are not noise, in their order.
pub fn filter_relevant(items: &[Item]) -> (r: Vec<Item>)
    ensures
        r@ == relevant(items@),
{
    let mut r: Vec<Item> = Vec::new();
    let mut i: usize = 0;
    while i < items.len()
        invariant
            i <= items.len(),
            r@ == relevant(items@.take(i as int)),
        decreases items.len() - i,
    {
        proof {
            let p = items@.take(i + 1);
            assert(p.drop_last() == items@.take(i as int));
            assert(p.last() == items@[i as int]);
        }
        if !is_noise(&items[i]) {
            r.push(items[i].duplicate());
        }
        i += 1;
    }
    proof {
        assert(items@.take(items@.len() as int) == items@);
    }
    r
}

} // verus!

verus! {

/// Law: what `filter_relevant` keeps is free of noise, no longer than what it
/// was given, and filtering it again changes nothing.
pub proof fn relevant_is_noise_free_and_idempotent(s: Seq<Item>)
    ensures
        relevant(s).len() <= s.len(),
        forall|j: int| 0 <= j < relevant(s).len() ==> !noisy(#[trigger] relevant(s)[j]),
        relevant(relevant(s)) == relevant(s),
    decreases s.len(),
{
    if s.len() > 0 {
        relevant_is_noise_free_and_idempotent(s.drop_last());
        let prev = relevant(s.drop_last());
        if !noisy(s.last()) {
            let r = prev.push(s.last());
            assert(r.drop_last() == prev);
            assert forall|j: int| 0 <= j < r.len() implies !noisy(#[trigger] r[j]) by {
                if j < prev.len() {
                    assert(r[j] == prev[j]);
                }
            }
        }
    }
}

} // verus!
