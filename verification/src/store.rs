//! The keyword store: (group, keyword) → reply triples, at most one row per
//! (group, keyword) pair. Lookup for the reply path scans the group's rows
//! and takes the first whose keyword is contained in the message text.

use vstd::prelude::*;
use vstd::string::StringExecFns;
use crate::text::contains_sub;
use crate::text::has_match;
use crate::text::str_eq;

verus! {

/// One stored keyword→reply pair.
pub struct KeywordReply {
    pub group_id: i64,
    pub keywords: String,
    pub reply: String,
}

/// Mathematical image of a stored row.
pub struct RowView {
    pub group_id: i64,
    pub keywords: Seq<char>,
    pub reply: Seq<char>,
}

impl View for KeywordReply {
    type V = RowView;

    open spec fn view(&self) -> RowView {
        RowView { group_id: self.group_id, keywords: self.keywords@, reply: self.reply@ }
    }
}

/// The row carries the given key.
pub open spec fn row_is(r: RowView, g: i64, k: Seq<char>) -> bool {
    r.group_id == g && r.keywords == k
}

/// Some row carries the given key.
pub open spec fn has_key(rows: Seq<RowView>, g: i64, k: Seq<char>) -> bool {
    exists|i: int| 0 <= i < rows.len() && row_is(rows[i], g, k)
}

/// The reply stored under a key: the first row carrying it.
pub open spec fn reply_of(rows: Seq<RowView>, g: i64, k: Seq<char>) -> Seq<char>
    decreases rows.len(),
{
    if rows.len() == 0 {
        Seq::empty()
    } else if row_is(rows[0], g, k) {
        rows[0].reply
    } else {
        reply_of(rows.drop_first(), g, k)
    }
}

/// Update-if-exists: the first row carrying the key gets the new reply; a
/// missing key appends a new row.
pub open spec fn upsert_model(rows: Seq<RowView>, g: i64, k: Seq<char>, rep: Seq<char>) -> Seq<
    RowView,
>
    decreases rows.len(),
{
    if rows.len() == 0 {
        seq![RowView { group_id: g, keywords: k, reply: rep }]
    } else if row_is(rows[0], g, k) {
        seq![RowView { group_id: g, keywords: k, reply: rep }] + rows.drop_first()
    } else {
        seq![rows[0]] + upsert_model(rows.drop_first(), g, k, rep)
    }
}

/// Removal of the row carrying a key, when present.
pub open spec fn remove_model(rows: Seq<RowView>, g: i64, k: Seq<char>) -> Seq<RowView>
    decreases rows.len(),
{
    if rows.len() == 0 {
        rows
    } else if row_is(rows[0], g, k) {
        rows.drop_first()
    } else {
        seq![rows[0]] + remove_model(rows.drop_first(), g, k)
    }
}

/// The rows that survive a whole-group deletion.
pub open spec fn retain_other_groups(rows: Seq<RowView>, g: i64) -> Seq<RowView>
    decreases rows.len(),
{
    if rows.len() == 0 {
        rows
    } else if rows[0].group_id == g {
        retain_other_groups(rows.drop_first(), g)
    } else {
        seq![rows[0]] + retain_other_groups(rows.drop_first(), g)
    }
}

/// How many rows a group holds.
pub open spec fn group_count(rows: Seq<RowView>, g: i64) -> int
    decreases rows.len(),
{
    if rows.len() == 0 {
        0int
    } else if rows[0].group_id == g {
        1 + group_count(rows.drop_first(), g)
    } else {
        group_count(rows.drop_first(), g)
    }
}

/// The group's keywords, in store order.
pub open spec fn group_keywords(rows: Seq<RowView>, g: i64) -> Seq<Seq<char>>
    decreases rows.len(),
{
    if rows.len() == 0 {
        Seq::empty()
    } else if rows[0].group_id == g {
        seq![rows[0].keywords] + group_keywords(rows.drop_first(), g)
    } else {
        group_keywords(rows.drop_first(), g)
    }
}

/// The first of the group's rows whose keyword is contained in the text.
pub open spec fn first_group_match(rows: Seq<RowView>, g: i64, text: Seq<char>) -> Option<RowView>
    decreases rows.len(),
{
    if rows.len() == 0 {
        None
    } else if rows[0].group_id == g && has_match(text, rows[0].keywords) {
        Some(rows[0])
    } else {
        first_group_match(rows.drop_first(), g, text)
    }
}

/// The in-memory keyword store.
pub struct KeywordStore {
    rows: Vec<KeywordReply>,
}

impl View for KeywordStore {
    type V = Seq<RowView>;

    closed spec fn view(&self) -> Seq<RowView> {
        self.rows@.map_values(|r: KeywordReply| r@)
    }
}

impl KeywordStore {
    /// At most one row per (group, keyword) pair.
    pub open spec fn wf(&self) -> bool {
        forall|i: int, j: int|
            0 <= i < j < self@.len() ==> !row_is(
                #[trigger] self@[j],
                (#[trigger] self@[i]).group_id,
                self@[i].keywords,
            )
    }

    /// An empty store.
    pub fn new() -> (s: Self)
        ensures
            s@ =~= Seq::<RowView>::empty(),
            s.wf(),
    {
        KeywordStore { rows: Vec::new() }
    }

    /// Update-if-exists: overwrites the reply when the (group, keyword) key
    /// is present and reports an update, else inserts a new row and reports
    /// an insertion.
    pub fn upsert(&mut self, group_id: i64, keywords: &str, reply: &str) -> (updated: bool)
        requires
            old(self).wf(),
        ensures
            final(self).wf(),
            final(self)@ == upsert_model(old(self)@, group_id, keywords@, reply@),
            updated == has_key(old(self)@, group_id, keywords@),
    {
        let n: usize = self.rows.len();
        let mut i: usize = 0;
        while i < n
            invariant
                0 <= i <= n,
                self@ == old(self)@,
                old(self).wf(),
                n == self@.len(),
                forall|j: int| 0 <= j < i ==> !row_is(self@[j], group_id, keywords@),
            decreases n - i,
        {
            let hit = self.rows[i].group_id == group_id && str_eq(
                self.rows[i].keywords.as_str(),
                keywords,
            );
            if hit {
                let ghost rows0 = self@;
                let mut row = self.rows.remove(i);
                row.reply = String::from_str(reply);
                self.rows.insert(i, row);
                proof {
                    let newr = RowView { group_id, keywords: keywords@, reply: reply@ };
                    assert(self@ =~= rows0.update(i as int, newr));
                    lemma_upsert_model_update(rows0, group_id, keywords@, reply@, i as int);
                    assert(row_is(rows0[i as int], group_id, keywords@));
                }
                return true;
            }
            i = i + 1;
        }
        let ghost rows0 = self@;
        self.rows.push(
            KeywordReply {
                group_id,
                keywords: String::from_str(keywords),
                reply: String::from_str(reply),
            },
        );
        proof {
            let newr = RowView { group_id, keywords: keywords@, reply: reply@ };
            assert(self@ =~= rows0.push(newr));
            lemma_upsert_model_append(rows0, group_id, keywords@, reply@);
        }
        false
    }

    /// Removes the row carrying the key; reports whether one existed.
    pub fn delete(&mut self, group_id: i64, keywords: &str) -> (removed: bool)
        requires
            old(self).wf(),
        ensures
            final(self).wf(),
            final(self)@ == remove_model(old(self)@, group_id, keywords@),
            removed == has_key(old(self)@, group_id, keywords@),
    {
        let n: usize = self.rows.len();
        let mut i: usize = 0;
        while i < n
            invariant
                0 <= i <= n,
                self@ == old(self)@,
                old(self).wf(),
                n == self@.len(),
                forall|j: int| 0 <= j < i ==> !row_is(self@[j], group_id, keywords@),
            decreases n - i,
        {
            let hit = self.rows[i].group_id == group_id && str_eq(
                self.rows[i].keywords.as_str(),
                keywords,
            );
            if hit {
                let ghost rows0 = self@;
                self.rows.remove(i);
                proof {
                    assert(self@ =~= rows0.remove(i as int));
                    lemma_remove_model_at(rows0, group_id, keywords@, i as int);
                    assert(row_is(rows0[i as int], group_id, keywords@));
                }
                return true;
            }
            i = i + 1;
        }
        proof {
            lemma_remove_model_absent(self@, group_id, keywords@);
        }
        false
    }

    /// Removes every row of the group; returns how many were removed.
    pub fn delete_all(&mut self, group_id: i64) -> (count: u64)
        requires
            old(self).wf(),
        ensures
            final(self).wf(),
            final(self)@ == retain_other_groups(old(self)@, group_id),
            count == group_count(old(self)@, group_id),
    {
        let ghost rows0 = self@;
        let mut kept: Vec<KeywordReply> = Vec::new();
        let mut count: u64 = 0;
        let n: usize = self.rows.len();
        proof {
            assert(rows0.skip(0) =~= rows0);
        }
        let mut i: usize = 0;
        while i < n
            invariant
                0 <= i <= n,
                n == rows0.len(),
                rows0 == self@,
                self.rows.len() == n,
                count <= i,
                kept@.map_values(|r: KeywordReply| r@).len() + count == i,
                retain_other_groups(rows0, group_id) == kept@.map_values(|r: KeywordReply| r@)
                    + retain_other_groups(rows0.skip(i as int), group_id),
                group_count(rows0, group_id) == count + group_count(
                    rows0.skip(i as int),
                    group_id,
                ),
            decreases n - i,
        {
            proof {
                assert(rows0.skip(i as int)[0] == rows0[i as int]);
                assert(rows0.skip(i as int).drop_first() =~= rows0.skip(i + 1));
            }
            let ghost kept0 = kept@.map_values(|r: KeywordReply| r@);
            let row = &self.rows[i];
            if row.group_id == group_id {
                count = count + 1;
            } else {
                kept.push(
                    KeywordReply {
                        group_id: row.group_id,
                        keywords: row.keywords.clone(),
                        reply: row.reply.clone(),
                    },
                );
                proof {
                    assert(kept@.map_values(|r: KeywordReply| r@) =~= kept0.push(
                        rows0[i as int],
                    ));
                    assert(kept0.push(rows0[i as int]) =~= kept0 + seq![rows0[i as int]]);
                    assert((kept0 + seq![rows0[i as int]]) + retain_other_groups(
                        rows0.skip(i + 1),
                        group_id,
                    ) =~= kept0 + (seq![rows0[i as int]] + retain_other_groups(
                        rows0.skip(i + 1),
                        group_id,
                    )));
                }
            }
            i = i + 1;
        }
        proof {
            assert(rows0.skip(n as int) =~= Seq::<RowView>::empty());
            assert(kept@.map_values(|r: KeywordReply| r@) + retain_other_groups(
                rows0.skip(n as int),
                group_id,
            ) =~= kept@.map_values(|r: KeywordReply| r@));
            lemma_retain_other_wf(rows0, group_id);
        }
        self.rows = kept;
        count
    }

    /// The group's keywords, in store order, for the listing command.
    pub fn list_keywords(&self, group_id: i64) -> (r: Vec<String>)
        ensures
            r.deep_view() == group_keywords(self@, group_id),
    {
        let ghost rows0 = self@;
        let mut out: Vec<String> = Vec::new();
        let n: usize = self.rows.len();
        proof {
            assert(rows0.skip(0) =~= rows0);
        }
        let mut i: usize = 0;
        while i < n
            invariant
                0 <= i <= n,
                n == rows0.len(),
                rows0 == self@,
                self.rows.len() == n,
                group_keywords(rows0, group_id) == out.deep_view() + group_keywords(
                    rows0.skip(i as int),
                    group_id,
                ),
            decreases n - i,
        {
            proof {
                assert(rows0.skip(i as int)[0] == rows0[i as int]);
                assert(rows0.skip(i as int).drop_first() =~= rows0.skip(i + 1));
            }
            let ghost out0 = out.deep_view();
            let row = &self.rows[i];
            if row.group_id == group_id {
                out.push(row.keywords.clone());
                proof {
                    assert(out.deep_view() =~= out0.push(rows0[i as int].keywords));
                    assert((out0 + seq![rows0[i as int].keywords]) + group_keywords(
                        rows0.skip(i + 1),
                        group_id,
                    ) =~= out0 + (seq![rows0[i as int].keywords] + group_keywords(
                        rows0.skip(i + 1),
                        group_id,
                    )));
                    assert(out0.push(rows0[i as int].keywords) =~= out0 + seq![
                        rows0[i as int].keywords,
                    ]);
                }
            }
            i = i + 1;
        }
        proof {
            assert(rows0.skip(n as int) =~= Seq::<RowView>::empty());
            assert(out.deep_view() + group_keywords(rows0.skip(n as int), group_id)
                =~= out.deep_view());
        }
        out
    }

    /// The reply of the group's first row whose keyword is contained in the
    /// text, scanning in store order.
    pub fn find_match(&self, group_id: i64, text: &str) -> (r: Option<String>)
        ensures
            r matches Some(rep) ==> (first_group_match(self@, group_id, text@) matches Some(row)
                && row.reply == rep@),
            r is None ==> first_group_match(self@, group_id, text@) is None,
    {
        let n: usize = self.rows.len();
        proof {
            assert(self@.skip(0) =~= self@);
        }
        let mut i: usize = 0;
        while i < n
            invariant
                0 <= i <= n,
                n == self@.len(),
                first_group_match(self@, group_id, text@) == first_group_match(
                    self@.skip(i as int),
                    group_id,
                    text@,
                ),
            decreases n - i,
        {
            proof {
                assert(self@.skip(i as int)[0] == self@[i as int]);
                assert(self@.skip(i as int).drop_first() =~= self@.skip(i + 1));
            }
            let row = &self.rows[i];
            if row.group_id == group_id && contains_sub(text, row.keywords.as_str()) {
                return Some(row.reply.clone());
            }
            i = i + 1;
        }
        proof {
            assert(self@.skip(n as int) =~= Seq::<RowView>::empty());
        }
        None
    }
}

proof fn lemma_upsert_model_update(rows: Seq<RowView>, g: i64, k: Seq<char>, rep: Seq<char>, i: int)
    requires
        0 <= i < rows.len(),
        row_is(rows[i], g, k),
        forall|j: int| 0 <= j < i ==> !row_is(rows[j], g, k),
    ensures
        upsert_model(rows, g, k, rep) =~= rows.update(
            i,
            RowView { group_id: g, keywords: k, reply: rep },
        ),
    decreases i,
{
    if i == 0 {
        assert(upsert_model(rows, g, k, rep) == seq![
            RowView { group_id: g, keywords: k, reply: rep },
        ] + rows.drop_first());
    } else {
        let t = rows.drop_first();
        assert(forall|j: int| 0 <= j < i - 1 ==> !row_is(#[trigger] t[j], g, k));
        lemma_upsert_model_update(t, g, k, rep, i - 1);
        assert(!row_is(rows[0], g, k));
        assert(upsert_model(rows, g, k, rep) == seq![rows[0]] + upsert_model(t, g, k, rep));
    }
}

proof fn lemma_upsert_model_append(rows: Seq<RowView>, g: i64, k: Seq<char>, rep: Seq<char>)
    requires
        forall|j: int| 0 <= j < rows.len() ==> !row_is(rows[j], g, k),
    ensures
        upsert_model(rows, g, k, rep) =~= rows.push(
            RowView { group_id: g, keywords: k, reply: rep },
        ),
    decreases rows.len(),
{
    if rows.len() > 0 {
        let t = rows.drop_first();
        assert(forall|j: int| 0 <= j < t.len() ==> !row_is(#[trigger] t[j], g, k));
        lemma_upsert_model_append(t, g, k, rep);
    }
}

proof fn lemma_remove_model_at(rows: Seq<RowView>, g: i64, k: Seq<char>, i: int)
    requires
        0 <= i < rows.len(),
        row_is(rows[i], g, k),
        forall|j: int| 0 <= j < i ==> !row_is(rows[j], g, k),
    ensures
        remove_model(rows, g, k) =~= rows.remove(i),
    decreases i,
{
    if i == 0 {
    } else {
        let t = rows.drop_first();
        assert(forall|j: int| 0 <= j < i - 1 ==> !row_is(#[trigger] t[j], g, k));
        lemma_remove_model_at(t, g, k, i - 1);
        assert(!row_is(rows[0], g, k));
        assert(t.remove(i - 1) =~= rows.remove(i).drop_first());
        assert(rows.remove(i)[0] == rows[0]);
    }
}

/// Removing an absent key changes nothing.
pub proof fn lemma_remove_model_absent(rows: Seq<RowView>, g: i64, k: Seq<char>)
    requires
        forall|j: int| 0 <= j < rows.len() ==> !row_is(rows[j], g, k),
    ensures
        remove_model(rows, g, k) =~= rows,
    decreases rows.len(),
{
    if rows.len() > 0 {
        let t = rows.drop_first();
        assert(forall|j: int| 0 <= j < t.len() ==> !row_is(#[trigger] t[j], g, k));
        lemma_remove_model_absent(t, g, k);
    }
}

/// Key lookup in the survivors of a whole-group deletion falls back to the
/// original rows.
proof fn lemma_retain_has_key(rows: Seq<RowView>, g: i64, g2: i64, k2: Seq<char>)
    requires
        has_key(retain_other_groups(rows, g), g2, k2),
    ensures
        has_key(rows, g2, k2),
    decreases rows.len(),
{
    if rows.len() > 0 {
        let t = rows.drop_first();
        let rt = retain_other_groups(t, g);
        if rows[0].group_id == g {
            lemma_retain_has_key(t, g, g2, k2);
            let i = choose|i: int| 0 <= i < t.len() && row_is(t[i], g2, k2);
            assert(rows[i + 1] == t[i]);
        } else {
            let r = retain_other_groups(rows, g);
            assert(r == seq![rows[0]] + rt);
            let i = choose|i: int| 0 <= i < r.len() && row_is(r[i], g2, k2);
            if i == 0 {
                assert(row_is(rows[0], g2, k2));
            } else {
                assert(r[i] == rt[i - 1]);
                lemma_retain_has_key(t, g, g2, k2);
                let j = choose|j: int| 0 <= j < t.len() && row_is(t[j], g2, k2);
                assert(rows[j + 1] == t[j]);
            }
        }
    }
}

/// Pairwise key uniqueness of a row sequence.
pub open spec fn rows_unique(rows: Seq<RowView>) -> bool {
    forall|i: int, j: int|
        0 <= i < j < rows.len() ==> !row_is(
            #[trigger] rows[j],
            (#[trigger] rows[i]).group_id,
            rows[i].keywords,
        )
}

proof fn lemma_unique_drop(rows: Seq<RowView>)
    requires
        rows_unique(rows),
        rows.len() > 0,
    ensures
        rows_unique(rows.drop_first()),
{
    let t = rows.drop_first();
    assert forall|i: int, j: int|
        0 <= i < j < t.len() implies !row_is(
        #[trigger] t[j],
        (#[trigger] t[i]).group_id,
        t[i].keywords,
    ) by {
        assert(t[i] == rows[i + 1]);
        assert(t[j] == rows[j + 1]);
    }
}

/// A whole-group deletion preserves key uniqueness.
proof fn lemma_retain_other_wf(rows: Seq<RowView>, g: i64)
    requires
        rows_unique(rows),
    ensures
        rows_unique(retain_other_groups(rows, g)),
    decreases rows.len(),
{
    if rows.len() > 0 {
        let t = rows.drop_first();
        lemma_unique_drop(rows);
        lemma_retain_other_wf(t, g);
        let rt = retain_other_groups(t, g);
        if rows[0].group_id != g {
            let r = seq![rows[0]] + rt;
            assert forall|i: int, j: int|
                0 <= i < j < r.len() implies !row_is(
                #[trigger] r[j],
                (#[trigger] r[i]).group_id,
                r[i].keywords,
            ) by {
                if i == 0 {
                    assert(r[j] == rt[j - 1]);
                    if row_is(rt[j - 1], rows[0].group_id, rows[0].keywords) {
                        assert(has_key(rt, rows[0].group_id, rows[0].keywords));
                        lemma_retain_has_key(t, g, rows[0].group_id, rows[0].keywords);
                        let w = choose|w: int|
                            0 <= w < t.len() && row_is(t[w], rows[0].group_id, rows[0].keywords);
                        assert(rows[w + 1] == t[w]);
                        assert(false);
                    }
                } else {
                    assert(r[i] == rt[i - 1]);
                    assert(r[j] == rt[j - 1]);
                }
            }
        }
    }
}

/// After an upsert the key is present and holds the upsert's reply: the
/// stored reply always matches the latest call's argument.
pub proof fn lemma_upsert_stores(rows: Seq<RowView>, g: i64, k: Seq<char>, rep: Seq<char>)
    ensures
        has_key(upsert_model(rows, g, k, rep), g, k),
        reply_of(upsert_model(rows, g, k, rep), g, k) == rep,
    decreases rows.len(),
{
    let m = upsert_model(rows, g, k, rep);
    if rows.len() == 0 {
        assert(row_is(m[0], g, k));
    } else if row_is(rows[0], g, k) {
        assert(row_is(m[0], g, k));
    } else {
        lemma_upsert_stores(rows.drop_first(), g, k, rep);
        let mt = upsert_model(rows.drop_first(), g, k, rep);
        assert(m == seq![rows[0]] + mt);
        assert(m.drop_first() =~= mt);
        let i = choose|i: int| 0 <= i < mt.len() && row_is(mt[i], g, k);
        assert(m[i + 1] == mt[i]);
    }
}

/// A second identical upsert sees the key already present, so the first
/// call inserts and the second reports an update, and the stored reply is
/// the second call's.
pub proof fn lemma_upsert_idempotent_effect(
    rows: Seq<RowView>,
    g: i64,
    k: Seq<char>,
    rep1: Seq<char>,
    rep2: Seq<char>,
)
    ensures
        has_key(upsert_model(rows, g, k, rep1), g, k),
        reply_of(upsert_model(upsert_model(rows, g, k, rep1), g, k, rep2), g, k) == rep2,
{
    lemma_upsert_stores(rows, g, k, rep1);
    lemma_upsert_stores(upsert_model(rows, g, k, rep1), g, k, rep2);
}

/// Deleting a whole group leaves it without rows or keywords, so a second
/// whole-group deletion removes nothing.
pub proof fn lemma_delete_all_resets(rows: Seq<RowView>, g: i64)
    ensures
        group_count(retain_other_groups(rows, g), g) == 0,
        group_keywords(retain_other_groups(rows, g), g) =~= Seq::<Seq<char>>::empty(),
    decreases rows.len(),
{
    if rows.len() > 0 {
        lemma_delete_all_resets(rows.drop_first(), g);
        if rows[0].group_id != g {
            let r = seq![rows[0]] + retain_other_groups(rows.drop_first(), g);
            assert(r.drop_first() =~= retain_other_groups(rows.drop_first(), g));
        }
    }
}

} // verus!
