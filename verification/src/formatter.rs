//! The reply formatter: re-wraps "code" spans of the originating message
//! into the stored reply. Entities are processed in descending start order
//! so that a replacement never shifts the positions a later, lower-offset
//! replacement still has to resolve; only entities whose UTF-16 range lies
//! entirely inside the reply's window are touched, partial overlaps are
//! silently ignored.

use vstd::prelude::*;
use vstd::string::StrSliceExecFns;
use vstd::string::StringExecFns;
use crate::codec::lemma_char_idx_monotone;
use crate::codec::utf16_len;
use crate::codec::utf16_prefix;
use crate::codec::utf16_to_char_idx;
use crate::codec::utf16_to_char_idx_spec;
use crate::message::Entity;
use crate::message::EntityKind;
use crate::text::find_first;
use crate::text::first_match;
use crate::text::lemma_first_match_is_match;

verus! {

/// Insertion before the first strictly smaller offset: entities with an
/// equal offset keep standing in front.
pub open spec fn insert_desc(x: Entity, l: Seq<Entity>) -> Seq<Entity>
    decreases l.len(),
{
    if l.len() == 0 {
        seq![x]
    } else if l[0].offset >= x.offset {
        seq![l[0]] + insert_desc(x, l.drop_first())
    } else {
        seq![x] + l
    }
}

/// The entity list sorted by start offset, descending.
pub open spec fn sort_desc(s: Seq<Entity>) -> Seq<Entity>
    decreases s.len(),
{
    if s.len() == 0 {
        Seq::empty()
    } else {
        insert_desc(s[0], sort_desc(s.drop_first()))
    }
}

proof fn lemma_insert_desc_split(x: Entity, l: Seq<Entity>, j: int)
    requires
        0 <= j <= l.len(),
        forall|t: int| 0 <= t < j ==> (#[trigger] l[t]).offset >= x.offset,
        j < l.len() ==> l[j].offset < x.offset,
    ensures
        insert_desc(x, l) == l.take(j) + seq![x] + l.skip(j),
    decreases j,
{
    if j == 0 {
        if l.len() == 0 {
            assert(l.take(0) + seq![x] + l.skip(0) =~= seq![x]);
        } else {
            assert(insert_desc(x, l) == seq![x] + l);
            assert(l.take(0) + seq![x] + l.skip(0) =~= seq![x] + l);
        }
    } else {
        let t = l.drop_first();
        assert(forall|u: int| 0 <= u < j - 1 ==> (#[trigger] t[u]).offset >= x.offset);
        assert(j - 1 < t.len() ==> t[j - 1].offset < x.offset);
        lemma_insert_desc_split(x, t, j - 1);
        assert(insert_desc(x, l) == seq![l[0]] + insert_desc(x, t));
        assert(l.take(j) + seq![x] + l.skip(j) =~= seq![l[0]] + (t.take(j - 1) + seq![x] + t.skip(
            j - 1,
        )));
    }
}

fn insert_desc_exec(x: Entity, l: Vec<Entity>) -> (r: Vec<Entity>)
    ensures
        r@ == insert_desc(x, l@),
{
    let ghost l0 = l@;
    let n: usize = l.len();
    let mut j: usize = 0;
    while j < n && l[j].offset >= x.offset
        invariant
            0 <= j <= n,
            n == l@.len(),
            l@ == l0,
            forall|t: int| 0 <= t < j ==> (#[trigger] l@[t]).offset >= x.offset,
        decreases n - j,
    {
        j = j + 1;
    }
    proof {
        lemma_insert_desc_split(x, l0, j as int);
    }
    let mut r = l;
    r.insert(j, x);
    proof {
        assert(r@ =~= l0.take(j as int) + seq![x] + l0.skip(j as int));
    }
    r
}

/// Sorts the message's entities by start offset, descending.
pub fn sort_entities_desc(v: &Vec<Entity>) -> (r: Vec<Entity>)
    ensures
        r@ == sort_desc(v@),
{
    let mut r: Vec<Entity> = Vec::new();
    let mut i: usize = v.len();
    proof {
        assert(v@.skip(v@.len() as int) =~= Seq::<Entity>::empty());
    }
    while i > 0
        invariant
            0 <= i <= v@.len(),
            r@ == sort_desc(v@.skip(i as int)),
        decreases i,
    {
        i = i - 1;
        proof {
            assert(v@.skip(i as int)[0] == v@[i as int]);
            assert(v@.skip(i as int).drop_first() =~= v@.skip(i + 1));
        }
        r = insert_desc_exec(v[i], r);
    }
    proof {
        assert(v@.skip(0) =~= v@);
    }
    r
}

/// One rewrap step over the current reply text. The window test and the
/// slice bounds follow the scanning codec: `orig` supplies the code text
/// from the untouched reply (an entity range that splits a character's
/// UTF-16 pair decodes to nothing), while positions for the replacement are
/// resolved on the current, possibly already rewritten, text.
pub open spec fn apply_one(
    orig: Seq<char>,
    cur: Seq<char>,
    r16: int,
    len16: int,
    e: Entity,
) -> Seq<char> {
    if e.kind == EntityKind::Code && e.offset >= r16 && e.offset + e.length <= r16 + len16
        && e.offset - r16 < len16 {
        let rs = e.offset - r16;
        let re = e.offset + e.length - r16;
        let cs_o = utf16_to_char_idx_spec(orig, rs);
        let ce_o = utf16_to_char_idx_spec(orig, re);
        let code_text = if utf16_len(orig.take(cs_o)) == rs && utf16_len(orig.take(ce_o)) == re {
            orig.subrange(cs_o, ce_o)
        } else {
            Seq::empty()
        };
        let cs = utf16_to_char_idx_spec(cur, rs);
        let ce = utf16_to_char_idx_spec(cur, re);
        if cs < cur.len() {
            cur.take(cs) + "<code>"@ + code_text + "</code>"@ + cur.skip(ce)
        } else {
            cur
        }
    } else {
        cur
    }
}

/// The rewrap steps applied in list order, first entity first.
pub open spec fn apply_entities(
    orig: Seq<char>,
    cur: Seq<char>,
    r16: int,
    len16: int,
    ents: Seq<Entity>,
) -> Seq<char>
    decreases ents.len(),
{
    if ents.len() == 0 {
        cur
    } else {
        apply_one(
            orig,
            apply_entities(orig, cur, r16, len16, ents.drop_last()),
            r16,
            len16,
            ents.last(),
        )
    }
}

/// The formatted reply: the reply window is located by the first occurrence
/// of the reply content in the message text (falling back to the start of
/// the message when it does not occur), and every code entity inside that
/// window is rewrapped, processed in descending offset order.
pub open spec fn format_reply_spec(reply: Seq<char>, text: Seq<char>, ents: Seq<Entity>) -> Seq<
    char,
> {
    let p = match first_match(text, reply) {
        Some(q) => q,
        None => 0,
    };
    apply_entities(reply, reply, utf16_len(text.take(p)), utf16_len(reply), sort_desc(ents))
}

fn apply_one_exec(orig: &str, cur: String, r16: usize, len16: usize, e: Entity) -> (r: String)
    ensures
        r@ == apply_one(orig@, cur@, r16 as int, len16 as int, e),
{
    if !matches!(e.kind, EntityKind::Code) {
        return cur;
    }
    let es: u64 = e.offset as u64;
    let ee: u64 = es + e.length as u64;
    if es < r16 as u64 {
        return cur;
    }
    if ee as u128 > r16 as u128 + len16 as u128 {
        return cur;
    }
    let rs: u64 = es - r16 as u64;
    if rs >= len16 as u64 {
        return cur;
    }
    let re: u64 = ee - r16 as u64;
    let cs_o = utf16_to_char_idx(orig, rs);
    let ce_o = utf16_to_char_idx(orig, re);
    let a1 = utf16_prefix(orig, cs_o);
    let a2 = utf16_prefix(orig, ce_o);
    proof {
        lemma_char_idx_monotone(orig@, rs as int, re as int);
    }
    let code_txt: String = if a1 as u64 == rs && a2 as u64 == re {
        String::from_str(orig.substring_char(cs_o, ce_o))
    } else {
        String::new()
    };
    let cur_str = cur.as_str();
    let cn: usize = cur_str.unicode_len();
    let cs = utf16_to_char_idx(cur_str, rs);
    let ce = utf16_to_char_idx(cur_str, re);
    if cs < cn {
        proof {
            lemma_char_idx_monotone(cur@, rs as int, re as int);
            assert(cur@.subrange(0, cs as int) =~= cur@.take(cs as int));
            assert(cur@.subrange(ce as int, cn as int) =~= cur@.skip(ce as int));
        }
        let mut out = String::from_str(cur_str.substring_char(0, cs));
        out.append("<code>");
        out.append(code_txt.as_str());
        out.append("</code>");
        out.append(cur_str.substring_char(ce, cn));
        out
    } else {
        cur
    }
}

/// Rewraps every code entity lying inside the reply's window, right to
/// left.
pub fn format_reply(reply: &str, text: &str, entities: &Vec<Entity>) -> (r: String)
    ensures
        r@ == format_reply_spec(reply@, text@, entities@),
{
    let p: usize = match find_first(text, reply) {
        Some(q) => q,
        None => 0,
    };
    proof {
        lemma_first_match_is_match(text@, reply@);
    }
    let r16: usize = utf16_prefix(text, p);
    let rn: usize = reply.unicode_len();
    let len16: usize = utf16_prefix(reply, rn);
    proof {
        assert(reply@.take(rn as int) =~= reply@);
    }
    let sorted = sort_entities_desc(entities);
    let ns: usize = sorted.len();
    let mut cur = String::from_str(reply);
    let mut i: usize = 0;
    proof {
        assert(sorted@.take(0) =~= Seq::<Entity>::empty());
    }
    while i < ns
        invariant
            0 <= i <= ns,
            ns == sorted@.len(),
            cur@ == apply_entities(reply@, reply@, r16 as int, len16 as int, sorted@.take(i as int)),
        decreases ns - i,
    {
        let e = sorted[i];
        cur = apply_one_exec(reply, cur, r16, len16, e);
        proof {
            assert(sorted@.take(i + 1).drop_last() =~= sorted@.take(i as int));
            assert(sorted@.take(i + 1).last() == sorted@[i as int]);
        }
        i = i + 1;
    }
    proof {
        assert(sorted@.take(ns as int) =~= sorted@);
    }
    cur
}

} // verus!
