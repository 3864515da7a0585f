//! The two configuration files: the product list and the mail settings.

use vstd::prelude::*;
use crate::text::{chars_of, lines, split_lines, string_of, string_views, trim, trim_chars, views};

verus! {

/// Sender, sender credential and recipients of the notification mails.
pub struct EmailConfig {
    pub from: String,
    pub password: String,
    pub recipients: Vec<String>,
}

/// Each piece trimmed.
pub open spec fn trimmed(x: Seq<Seq<char>>) -> Seq<Seq<char>> {
    x.map_values(|l: Seq<char>| trim(l))
}

/// The non-empty pieces, in order.
pub open spec fn nonblank(x: Seq<Seq<char>>) -> Seq<Seq<char>> {
    x.filter(|t: Seq<char>| t.len() > 0)
}

/// The products named by a product file: every line trimmed, blank lines kept.
pub open spec fn product_list(data: Seq<char>) -> Seq<Seq<char>> {
    trimmed(lines(data))
}

/// The recipients named by the lines of a mail file: from the third line on,
/// every line trimmed, blank lines left out.
pub open spec fn recipient_list(ls: Seq<Seq<char>>) -> Seq<Seq<char>> {
    nonblank(trimmed(ls.skip(2)))
}

proof fn lemma_trimmed_push(x: Seq<Seq<char>>, e: Seq<char>)
    ensures
        trimmed(x.push(e)) == trimmed(x).push(trim(e)),
{
    assert(trimmed(x.push(e)) =~= trimmed(x).push(trim(e)));
}

proof fn lemma_nonblank_push(y: Seq<Seq<char>>, t: Seq<char>)
    ensures
        nonblank(y.push(t)) == if t.len() > 0 {
            nonblank(y).push(t)
        } else {
            nonblank(y)
        },
{
    reveal(Seq::filter);
    assert(y.push(t).drop_last() =~= y);
}

/// Parses a product file: one product per line, each trimmed. Blank lines
/// are kept as empty products.
pub fn parse_products(data: &str) -> (r: Vec<String>)
    ensures
        string_views(r@) == product_list(data@),
{
    let cs = chars_of(data);
    let ls = split_lines(&cs);
    let mut out: Vec<String> = Vec::new();
    let mut i: usize = 0;
    while i < ls.len()
        invariant
            i <= ls@.len(),
            views(ls@) == lines(data@),
            string_views(out@) == trimmed(views(ls@).take(i as int)),
        decreases ls@.len() - i,
    {
        let t = trim_chars(&ls[i]);
        let ghost before = string_views(out@);
        out.push(string_of(&t));
        proof {
            assert(views(ls@).take(i + 1) =~= views(ls@).take(i as int).push(ls@[i as int]@));
            lemma_trimmed_push(views(ls@).take(i as int), ls@[i as int]@);
            assert(string_views(out@) =~= before.push(t@));
        }
        i = i + 1;
    }
    assert(views(ls@).take(ls@.len() as int) =~= views(ls@));
    out
}

/// Parses a mail file: the sender on the first line, the credential on the
/// second, one recipient on each further non-blank line, all trimmed. A file
/// of fewer than three lines gives an empty configuration.
pub fn parse_email_config(data: &str) -> (r: EmailConfig)
    ensures
        lines(data@).len() >= 3 ==> r.from@ == trim(lines(data@)[0]) && r.password@ == trim(
            lines(data@)[1],
        ) && string_views(r.recipients@) == recipient_list(lines(data@)),
        lines(data@).len() < 3 ==> r.from@.len() == 0 && r.password@.len() == 0
            && r.recipients@.len() == 0,
{
    let cs = chars_of(data);
    let ls = split_lines(&cs);
    let ghost lv = views(ls@);
    if ls.len() < 3 {
        let e: Vec<char> = Vec::new();
        return EmailConfig { from: string_of(&e), password: string_of(&e), recipients: Vec::new() };
    }
    let from = string_of(&trim_chars(&ls[0]));
    let password = string_of(&trim_chars(&ls[1]));
    let mut recipients: Vec<String> = Vec::new();
    let mut i: usize = 2;
    proof {
        reveal(Seq::filter);
        assert(trimmed(lv.subrange(2, 2)).len() == 0);
        assert(string_views(recipients@) =~= nonblank(trimmed(lv.subrange(2, 2))));
    }
    while i < ls.len()
        invariant
            2 <= i <= ls@.len(),
            lv == views(ls@),
            string_views(recipients@) == nonblank(trimmed(lv.subrange(2, i as int))),
        decreases ls@.len() - i,
    {
        let t = trim_chars(&ls[i]);
        proof {
            assert(lv.subrange(2, i + 1) =~= lv.subrange(2, i as int).push(lv[i as int]));
            lemma_trimmed_push(lv.subrange(2, i as int), lv[i as int]);
            lemma_nonblank_push(trimmed(lv.subrange(2, i as int)), t@);
        }
        if t.len() > 0 {
            let ghost before = string_views(recipients@);
            recipients.push(string_of(&t));
            assert(string_views(recipients@) =~= before.push(t@));
        }
        i = i + 1;
    }
    assert(lv.subrange(2, lv.len() as int) =~= lv.skip(2));
    EmailConfig { from, password, recipients }
}

} // verus!
