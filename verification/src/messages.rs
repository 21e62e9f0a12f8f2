//! The short log of recent shell events that the demo keeps.

use vstd::prelude::*;
use crate::text::{texts, owned};

verus! {

/// How many messages the log keeps.
pub const MESSAGE_LOG_LIMIT: usize = 12;

/// The last `limit` elements of `s`, or all of them when there are fewer.
pub open spec fn keep_last(s: Seq<Seq<char>>, limit: nat) -> Seq<Seq<char>> {
    if s.len() > limit {
        s.skip(s.len() - limit)
    } else {
        s
    }
}

/// Appends a message to the log, then drops the oldest messages until at
/// most `MESSAGE_LOG_LIMIT` remain.
pub fn push_message(log: &mut Vec<String>, message: &str)
    ensures
        texts(final(log)@) == keep_last(texts(old(log)@).push(message@), MESSAGE_LOG_LIMIT as nat),
{
    let ghost full = texts(log@).push(message@);
    log.push(owned(message));
    assert(texts(log@) =~= full);
    assert(log@.len() == full.len());
    if log.len() > MESSAGE_LOG_LIMIT {
        let drain_count = log.len() - MESSAGE_LOG_LIMIT;
        let mut dropped: usize = 0;
        while dropped < drain_count
            invariant
                dropped <= drain_count,
                drain_count == full.len() - MESSAGE_LOG_LIMIT,
                full.len() > MESSAGE_LOG_LIMIT,
                texts(log@) == full.skip(dropped as int),
                log@.len() == full.len() - dropped,
            decreases drain_count - dropped,
        {
            let ghost before = log@;
            log.remove(0);
            assert(log@ == before.remove(0));
            assert forall|i: int| 0 <= i < log@.len() implies #[trigger] texts(log@)[i] == full.skip(dropped + 1)[i] by {
                assert(log@[i] == before[i + 1]);
                assert(texts(before)[i + 1] == full.skip(dropped as int)[i + 1]);
            }
            assert(texts(log@) =~= full.skip(dropped + 1));
            dropped = dropped + 1;
        }
    } else {
        assert(full.len() <= MESSAGE_LOG_LIMIT);
    }
}

/// Law: the log never holds more than `MESSAGE_LOG_LIMIT` messages, and the
/// newest one is always last.
pub proof fn lemma_log_bounded(s: Seq<Seq<char>>, message: Seq<char>)
    ensures
        keep_last(s.push(message), MESSAGE_LOG_LIMIT as nat).len() <= MESSAGE_LOG_LIMIT,
        keep_last(s.push(message), MESSAGE_LOG_LIMIT as nat).len() > 0,
        keep_last(s.push(message), MESSAGE_LOG_LIMIT as nat).last() == message,
{
}


/// Law: pushing a message appends it after every earlier entry; the log
/// grows by one until it reaches `MESSAGE_LOG_LIMIT`, and from then on only
/// the oldest entries leave, the rest staying in order.
pub proof fn lemma_push_appends(s: Seq<Seq<char>>, m: Seq<char>)
    ensures
        keep_last(s.push(m), MESSAGE_LOG_LIMIT as nat).len()
            == if s.len() < MESSAGE_LOG_LIMIT { s.len() + 1 } else { MESSAGE_LOG_LIMIT as nat },
        s.len() < MESSAGE_LOG_LIMIT ==> keep_last(s.push(m), MESSAGE_LOG_LIMIT as nat) == s.push(m),
        forall|j: int| 0 <= j < keep_last(s.push(m), MESSAGE_LOG_LIMIT as nat).len() - 1 ==>
            #[trigger] keep_last(s.push(m), MESSAGE_LOG_LIMIT as nat)[j]
                == s[s.len() + 1 - keep_last(s.push(m), MESSAGE_LOG_LIMIT as nat).len() + j],
        keep_last(s.push(m), MESSAGE_LOG_LIMIT as nat).last() == m,
{
}

} // verus!
