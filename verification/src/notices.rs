//! The dispatcher's user-visible texts: usage notices, the admins-only
//! notice, command confirmations and the keyword listing. Replies carry
//! their own markup tags; the transport sends them in HTML mode.

use vstd::prelude::*;
use vstd::string::StringExecFns;
use crate::text::dec_str;
use crate::text::u64_to_dec;

verus! {

pub open spec fn usage_add_text() -> Seq<char> {
    "Usage: /add &lt;keyword&gt; &lt;reply&gt;"@
}

pub open spec fn usage_del_text() -> Seq<char> {
    "Usage: /del &lt;keyword&gt;"@
}

pub open spec fn admins_only_text() -> Seq<char> {
    "Only administrators can use this command"@
}

pub open spec fn added_text(kw: Seq<char>) -> Seq<char> {
    "Keyword <code>"@ + kw + "</code> added successfully!"@
}

pub open spec fn updated_text(kw: Seq<char>) -> Seq<char> {
    "Keyword <code>"@ + kw + "</code> updated successfully!"@
}

pub open spec fn deleted_text(kw: Seq<char>) -> Seq<char> {
    "Keyword <code>"@ + kw + "</code> deleted successfully!"@
}

pub open spec fn not_found_text(kw: Seq<char>) -> Seq<char> {
    "Keyword <code>"@ + kw + "</code> not found"@
}

pub open spec fn deleted_count_text(n: int) -> Seq<char> {
    "Deleted "@ + dec_str(n) + " keywords!"@
}

/// The generic notice for a persistence failure during a command: the
/// failure is caught at the command boundary, never surfaced as an error.
pub open spec fn try_again_text() -> Seq<char> {
    "An error occurred, please try again later"@
}

pub open spec fn no_keywords_text() -> Seq<char> {
    "No keywords are set for this group"@
}

pub open spec fn no_replies_text() -> Seq<char> {
    "No keyword replies are set for this group yet."@
}

pub open spec fn help_text() -> Seq<char> {
    "Available commands:\n/add &lt;keyword&gt; &lt;reply&gt; - add a keyword reply (admins only)\n/del &lt;keyword&gt; - delete a keyword reply (admins only)\n/del_all - delete all keywords for this group (admins only)\n/all - list this group's keywords\n/help - show this help"@
}

/// One line of the keyword listing per keyword, each in a code tag.
pub open spec fn keyword_lines(kws: Seq<Seq<char>>) -> Seq<char>
    decreases kws.len(),
{
    if kws.len() == 0 {
        Seq::empty()
    } else {
        "<code>"@ + kws[0] + "</code>\n"@ + keyword_lines(kws.drop_first())
    }
}

/// The `/all` listing: a bold header, then one line per keyword.
pub open spec fn all_list_text(kws: Seq<Seq<char>>) -> Seq<char> {
    "<b>Keywords for this group:</b>\n\n"@ + keyword_lines(kws)
}

pub fn usage_add() -> (s: String)
    ensures
        s@ == usage_add_text(),
{
    String::from_str("Usage: /add &lt;keyword&gt; &lt;reply&gt;")
}

pub fn usage_del() -> (s: String)
    ensures
        s@ == usage_del_text(),
{
    String::from_str("Usage: /del &lt;keyword&gt;")
}

pub fn admins_only() -> (s: String)
    ensures
        s@ == admins_only_text(),
{
    String::from_str("Only administrators can use this command")
}

pub fn added_notice(kw: &str) -> (s: String)
    ensures
        s@ == added_text(kw@),
{
    let mut s = String::from_str("Keyword <code>");
    s.append(kw);
    s.append("</code> added successfully!");
    s
}

pub fn updated_notice(kw: &str) -> (s: String)
    ensures
        s@ == updated_text(kw@),
{
    let mut s = String::from_str("Keyword <code>");
    s.append(kw);
    s.append("</code> updated successfully!");
    s
}

pub fn deleted_notice(kw: &str) -> (s: String)
    ensures
        s@ == deleted_text(kw@),
{
    let mut s = String::from_str("Keyword <code>");
    s.append(kw);
    s.append("</code> deleted successfully!");
    s
}

pub fn not_found_notice(kw: &str) -> (s: String)
    ensures
        s@ == not_found_text(kw@),
{
    let mut s = String::from_str("Keyword <code>");
    s.append(kw);
    s.append("</code> not found");
    s
}

pub fn deleted_count_notice(n: u64) -> (s: String)
    ensures
        s@ == deleted_count_text(n as int),
{
    let mut s = String::from_str("Deleted ");
    let d = u64_to_dec(n);
    s.append(d.as_str());
    s.append(" keywords!");
    s
}

pub fn try_again_notice() -> (s: String)
    ensures
        s@ == try_again_text(),
{
    String::from_str("An error occurred, please try again later")
}

pub fn no_keywords_notice() -> (s: String)
    ensures
        s@ == no_keywords_text(),
{
    String::from_str("No keywords are set for this group")
}

pub fn no_replies_notice() -> (s: String)
    ensures
        s@ == no_replies_text(),
{
    String::from_str("No keyword replies are set for this group yet.")
}

pub fn help_notice() -> (s: String)
    ensures
        s@ == help_text(),
{
    String::from_str(
        "Available commands:\n/add &lt;keyword&gt; &lt;reply&gt; - add a keyword reply (admins only)\n/del &lt;keyword&gt; - delete a keyword reply (admins only)\n/del_all - delete all keywords for this group (admins only)\n/all - list this group's keywords\n/help - show this help",
    )
}

/// Builds the `/all` listing from the group's keywords.
pub fn all_list_notice(kws: &Vec<String>) -> (s: String)
    ensures
        s@ == all_list_text(kws.deep_view()),
{
    let ghost kv = kws.deep_view();
    let mut s = String::from_str("<b>Keywords for this group:</b>\n\n");
    let n: usize = kws.len();
    let mut i: usize = 0;
    proof {
        assert(kv.skip(0) =~= kv);
        assert(kws.deep_view().len() == kws@.len());
    }
    while i < n
        invariant
            0 <= i <= n,
            n == kv.len(),
            kv == kws.deep_view(),
            n == kws@.len(),
            all_list_text(kv) == s@ + keyword_lines(kv.skip(i as int)),
        decreases n - i,
    {
        proof {
            assert(kv.skip(i as int)[0] == kv[i as int]);
            assert(kv.skip(i as int).drop_first() =~= kv.skip(i + 1));
            assert(kv[i as int] == kws@[i as int]@);
        }
        let ghost s0 = s@;
        s.append("<code>");
        s.append(kws[i].as_str());
        s.append("</code>\n");
        proof {
            assert(s0 + keyword_lines(kv.skip(i as int)) =~= s@ + keyword_lines(kv.skip(i + 1)));
        }
        i = i + 1;
    }
    proof {
        assert(kv.skip(n as int) =~= Seq::<Seq<char>>::empty());
        assert(s@ + keyword_lines(kv.skip(n as int)) =~= s@);
    }
    s
}

} // verus!
