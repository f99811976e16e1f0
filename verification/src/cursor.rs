//! The update loop's cursor: after a successfully fetched batch it advances
//! to one past the largest update id in the batch, whatever each message's
//! dispatch did; an empty batch and a failed fetch leave it unchanged.

use vstd::prelude::*;
use crate::message::InboundMessage;
use crate::message::Update;

verus! {

/// Largest update id in a batch; the identity below the smallest id serves
/// as the base for the fold.
pub open spec fn batch_max_id(us: Seq<Update>) -> int
    decreases us.len(),
{
    if us.len() == 0 {
        i64::MIN as int
    } else {
        let t = batch_max_id(us.drop_first());
        if us[0].update_id >= t {
            us[0].update_id as int
        } else {
            t
        }
    }
}

/// The batch's messages, in batch order; non-message updates carry none.
pub open spec fn batch_messages(us: Seq<Update>) -> Seq<InboundMessage>
    decreases us.len(),
{
    if us.len() == 0 {
        Seq::empty()
    } else {
        (match us[0].message {
            Some(m) => seq![m],
            None => Seq::empty(),
        }) + batch_messages(us.drop_first())
    }
}

proof fn lemma_batch_messages_push(t: Seq<Update>, u: Update)
    ensures
        batch_messages(t.push(u)) == batch_messages(t) + (match u.message {
            Some(m) => seq![m],
            None => Seq::<InboundMessage>::empty(),
        }),
    decreases t.len(),
{
    let p = t.push(u);
    let x: Seq<InboundMessage> = match u.message {
        Some(m) => seq![m],
        None => Seq::empty(),
    };
    if t.len() == 0 {
        assert(p.drop_first() =~= Seq::<Update>::empty());
        assert(p[0] == u);
        assert(batch_messages(p.drop_first()) == Seq::<InboundMessage>::empty());
        assert(batch_messages(p) =~= x);
        assert(batch_messages(t) + x =~= x);
    } else {
        assert(p.drop_first() =~= t.drop_first().push(u));
        assert(p[0] == t[0]);
        lemma_batch_messages_push(t.drop_first(), u);
        let h: Seq<InboundMessage> = match t[0].message {
            Some(m) => seq![m],
            None => Seq::empty(),
        };
        assert(batch_messages(p) == h + (batch_messages(t.drop_first()) + x));
        assert(h + (batch_messages(t.drop_first()) + x) =~= (h + batch_messages(t.drop_first()))
            + x);
        assert(batch_messages(t) == h + batch_messages(t.drop_first()));
    }
}

/// No update id in a batch exceeds the batch's maximum.
pub proof fn lemma_batch_max_is_max(us: Seq<Update>)
    ensures
        forall|i: int| 0 <= i < us.len() ==> (#[trigger] us[i]).update_id <= batch_max_id(us),
    decreases us.len(),
{
    if us.len() > 0 {
        lemma_batch_max_is_max(us.drop_first());
        assert(forall|i: int|
            1 <= i < us.len() ==> (#[trigger] us[i]) == us.drop_first()[i - 1]);
    }
}

/// The cursor only advances: when the source hands out ids at or past the
/// requested offset, the next offset is strictly larger.
pub proof fn lemma_cursor_advances_forward(us: Seq<Update>, offset: int)
    requires
        us.len() > 0,
        forall|i: int| 0 <= i < us.len() ==> offset <= (#[trigger] us[i]).update_id,
    ensures
        batch_max_id(us) + 1 > offset,
{
    lemma_batch_max_is_max(us);
    assert(us[0].update_id <= batch_max_id(us));
}

/// The next offset to request from the update source; absent until the
/// first batch has been processed, as the source's default start.
pub struct UpdateCursor {
    pub offset: Option<i64>,
}

impl UpdateCursor {
    /// A cursor that starts at the source's default position.
    pub fn new() -> (c: Self)
        ensures
            c.offset is None,
    {
        UpdateCursor { offset: None }
    }

    /// Consumes a fetched batch: returns its messages in batch order for
    /// dispatch, and advances the cursor to one past the batch's largest
    /// update id. An empty batch leaves the cursor unchanged. The advance
    /// does not depend on what any dispatch does with the messages.
    pub fn process_batch(&mut self, batch: Vec<Update>) -> (msgs: Vec<InboundMessage>)
        requires
            forall|i: int|
                0 <= i < batch@.len() ==> (#[trigger] batch@[i]).update_id < i64::MAX,
        ensures
            msgs@ == batch_messages(batch@),
            batch@.len() == 0 ==> final(self).offset == old(self).offset,
            batch@.len() > 0 ==> final(self).offset == Some((batch_max_id(batch@) + 1) as i64),
    {
        let ghost orig = batch@;
        let n: usize = batch.len();
        if n > 0 {
            let mut best: i64 = i64::MIN;
            let mut i: usize = 0;
            proof {
                assert(orig.skip(0) =~= orig);
            }
            while i < n
                invariant
                    0 <= i <= n,
                    n == orig.len(),
                    batch@ == orig,
                    forall|j: int|
                        0 <= j < orig.len() ==> (#[trigger] orig[j]).update_id < i64::MAX,
                    best < i64::MAX,
                    batch_max_id(orig) == (if best >= batch_max_id(orig.skip(i as int)) {
                        best as int
                    } else {
                        batch_max_id(orig.skip(i as int))
                    }),
                decreases n - i,
            {
                proof {
                    assert(orig.skip(i as int)[0] == orig[i as int]);
                    assert(orig.skip(i as int).drop_first() =~= orig.skip(i + 1));
                }
                let id = batch[i].update_id;
                if id > best {
                    best = id;
                }
                i = i + 1;
            }
            proof {
                assert(orig.skip(n as int) =~= Seq::<Update>::empty());
            }
            self.offset = Some(best + 1);
        }
        let mut rest = batch;
        let mut msgs: Vec<InboundMessage> = Vec::new();
        while rest.len() > 0
            invariant
                batch_messages(rest@) + msgs@ == batch_messages(orig),
            decreases rest.len(),
        {
            let ghost pre = rest@;
            let u = rest.pop().unwrap();
            proof {
                assert(pre.drop_last().push(u) =~= pre);
                lemma_batch_messages_push(pre.drop_last(), u);
            }
            match u.message {
                Some(m) => {
                    let ghost m0 = msgs@;
                    msgs.insert(0, m);
                    proof {
                        assert(msgs@ =~= seq![m] + m0);
                        assert(batch_messages(rest@) + (seq![m] + m0) =~= (batch_messages(rest@)
                            + seq![m]) + m0);
                    }
                },
                None => {
                    proof {
                        assert(batch_messages(pre) =~= batch_messages(rest@));
                    }
                },
            }
        }
        proof {
            assert(rest@ =~= Seq::<Update>::empty());
            assert(batch_messages(rest@) + msgs@ =~= msgs@);
        }
        msgs
    }
}

} // verus!
