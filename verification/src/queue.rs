//! The rules that are still to run on an element.
//!
//! The queue holds positions of the rule table. A rule that runs may strike
//! rules from the queue that would otherwise run after it on the same element.

use vstd::prelude::*;
use crate::keys::{key_at, rule, SHTMLKey, RULES};

verus! {

/// Whether the rule of `by`, once it has run, strikes the rule of `key`.
///
/// Inside a notation, the attributes of terms mark components; so the rules
/// of the component markers strike those of terms, of heads, of notation
/// identifiers and of invisibility, and each strikes itself.
pub open spec fn cancels(by: SHTMLKey, key: SHTMLKey) -> bool {
    let common = key == SHTMLKey::Term || key == SHTMLKey::Head || key == SHTMLKey::NotationId || key
        == SHTMLKey::Invisible;
    match by {
        SHTMLKey::NotationComp => common,
        SHTMLKey::NotationOpComp => common,
        SHTMLKey::ArgSep => common || key == SHTMLKey::ArgSep,
        SHTMLKey::ArgMap => common || key == SHTMLKey::ArgMap,
        SHTMLKey::ArgMapSep => common || key == SHTMLKey::ArgMapSep,
        _ => false,
    }
}

/// Whether the table position `code` stays in the queue after the rule of `by` has run.
pub open spec fn stays(by: SHTMLKey, code: u8) -> bool {
    code >= RULES || !cancels(by, key_at(code as int))
}

/// Whether the table position `code` stays in the queue after the rule of `by` has run.
pub fn keeps(by: SHTMLKey, code: u8) -> (r: bool)
    ensures
        r == stays(by, code),
{
    if code as usize >= RULES {
        return true;
    }
    let key = rule(code);
    let common = match key {
        SHTMLKey::Term => true,
        SHTMLKey::Head => true,
        SHTMLKey::NotationId => true,
        SHTMLKey::Invisible => true,
        _ => false,
    };
    match by {
        SHTMLKey::NotationComp => !common,
        SHTMLKey::NotationOpComp => !common,
        SHTMLKey::ArgSep => !(common || key == SHTMLKey::ArgSep),
        SHTMLKey::ArgMap => !(common || key == SHTMLKey::ArgMap),
        SHTMLKey::ArgMapSep => !(common || key == SHTMLKey::ArgMapSep),
        _ => true,
    }
}

/// The positions of `q` that stay after the rule of `by` has run, in order.
pub open spec fn kept(q: Seq<u8>, by: SHTMLKey) -> Seq<u8>
    decreases q.len(),
{
    if q.len() == 0 {
        q
    } else if stays(by, q.last()) {
        kept(q.drop_last(), by).push(q.last())
    } else {
        kept(q.drop_last(), by)
    }
}

/// Striking rules never lengthens the queue.
pub proof fn lemma_kept_len(q: Seq<u8>, by: SHTMLKey)
    ensures
        kept(q, by).len() <= q.len(),
    decreases q.len(),
{
    if q.len() > 0 {
        lemma_kept_len(q.drop_last(), by);
    }
}

/// A queue of table positions, kept in a `smallvec::SmallVec`.
#[verifier::external_body]
pub struct RuleQueue {
    inner: smallvec::SmallVec<[u8; 4]>,
}

/// The table positions that the queue holds, the next to run last.
pub uninterp spec fn queue_items(q: RuleQueue) -> Seq<u8>;

/// `SmallVec::new`: a queue that holds nothing.
#[verifier::external_body]
pub(crate) fn queue_new() -> (q: RuleQueue)
    ensures
        queue_items(q) == Seq::<u8>::empty(),
{
    RuleQueue { inner: smallvec::SmallVec::new() }
}

/// `SmallVec::push`: the position is added at the end.
#[verifier::external_body]
pub(crate) fn queue_push(q: &mut RuleQueue, code: u8)
    ensures
        queue_items(*final(q)) == queue_items(*old(q)).push(code),
{
    q.inner.push(code)
}

/// `SmallVec::pop`: the last position is taken off and handed back; `None`
/// and no change where the queue is empty.
#[verifier::external_body]
pub(crate) fn queue_pop(q: &mut RuleQueue) -> (r: Option<u8>)
    ensures
        match r {
            Some(code) => queue_items(*old(q)).len() > 0 && code == queue_items(*old(q)).last()
                && queue_items(*final(q)) == queue_items(*old(q)).drop_last(),
            None => queue_items(*old(q)).len() == 0 && queue_items(*final(q)) == queue_items(*old(q)),
        },
{
    q.inner.pop()
}

/// `SmallVec::is_empty`: whether the queue holds nothing.
#[verifier::external_body]
pub(crate) fn queue_is_empty(q: &RuleQueue) -> (r: bool)
    ensures
        r == (queue_items(*q).len() == 0),
{
    q.inner.is_empty()
}

/// `<[u8]>::reverse` on the queue's slice: the order of the positions is reversed.
#[verifier::external_body]
pub(crate) fn queue_reverse(q: &mut RuleQueue)
    ensures
        queue_items(*final(q)) == queue_items(*old(q)).reverse(),
{
    q.inner.reverse()
}

/// `SmallVec::retain` with `keeps(by, _)`: the positions for which it
/// returns `true` stay, in their order; the others leave.
#[verifier::external_body]
pub(crate) fn queue_retain(q: &mut RuleQueue, by: SHTMLKey)
    ensures
        queue_items(*final(q)) == kept(queue_items(*old(q)), by),
{
    q.inner.retain(|code| keeps(by, *code))
}

impl RuleQueue {
    /// An empty queue.
    pub fn new() -> (q: RuleQueue)
        ensures
            queue_items(q) == Seq::<u8>::empty(),
    {
        queue_new()
    }

    /// Queues the rule at table position `code` to run before those already queued.
    pub fn push(&mut self, code: u8)
        ensures
            queue_items(*final(self)) == queue_items(*old(self)).push(code),
    {
        queue_push(self, code)
    }

    /// Takes the rule that runs next off the queue.
    pub fn pop(&mut self) -> (r: Option<u8>)
        ensures
            match r {
                Some(code) => queue_items(*old(self)).len() > 0 && code == queue_items(*old(self)).last()
                    && queue_items(*final(self)) == queue_items(*old(self)).drop_last(),
                None => queue_items(*old(self)).len() == 0 && queue_items(*final(self)) == queue_items(
                    *old(self),
                ),
            },
    {
        queue_pop(self)
    }

    /// Whether no rule is queued.
    pub fn is_empty(&self) -> (r: bool)
        ensures
            r == (queue_items(*self).len() == 0),
    {
        queue_is_empty(self)
    }

    /// Strikes the rules that the rule of `by` cancels.
    pub fn strike(&mut self, by: SHTMLKey)
        ensures
            queue_items(*final(self)) == kept(queue_items(*old(self)), by),
    {
        queue_retain(self, by)
    }
}

} // verus!
