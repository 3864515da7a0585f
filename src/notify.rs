//! The notification mails that a product check sends: one per recipient, in
//! recipient order, when the stock count is positive.

use vstd::prelude::*;
use crate::config::EmailConfig;
use crate::stock::{fetch_view, response_stock, stock_from_response, FetchError};
use crate::text::{string_of, string_views};

verus! {

/// One mail to send.
pub struct Notification {
    pub to: String,
    pub subject: String,
    pub body: String,
}

/// What a mail says, as character sequences.
pub struct NotificationView {
    pub to: Seq<char>,
    pub subject: Seq<char>,
    pub body: Seq<char>,
}

impl View for Notification {
    type V = NotificationView;

    open spec fn view(&self) -> NotificationView {
        NotificationView { to: self.to@, subject: self.subject@, body: self.body@ }
    }
}

/// The views of a list of mails.
pub open spec fn notification_views(v: Seq<Notification>) -> Seq<NotificationView> {
    v.map_values(|n: Notification| n@)
}

pub open spec fn digit_char(d: nat) -> char {
    if d == 0 {
        '0'
    } else if d == 1 {
        '1'
    } else if d == 2 {
        '2'
    } else if d == 3 {
        '3'
    } else if d == 4 {
        '4'
    } else if d == 5 {
        '5'
    } else if d == 6 {
        '6'
    } else if d == 7 {
        '7'
    } else if d == 8 {
        '8'
    } else {
        '9'
    }
}

/// The decimal digits of `n`, without leading zeros.
pub open spec fn decimal(n: nat) -> Seq<char>
    decreases n,
{
    if n < 10 {
        seq![digit_char(n)]
    } else {
        decimal(n / 10).push(digit_char(n % 10))
    }
}

/// Subject and body of the mail about `count` new parts of `product`.
pub open spec fn message_text(product: Seq<char>, count: nat) -> Seq<char> {
    "[arrow艾睿] "@ + product + " 产品有 "@ + decimal(count) + " 个新库存"@
}

/// Whether a check that found `stock` sends mail.
pub open spec fn notifies(stock: Option<i32>) -> bool {
    stock is Some && stock->0 > 0
}

/// The mails for one product check: none unless the stock is positive, then
/// one per recipient, in recipient order, all with the same text.
pub open spec fn plan(product: Seq<char>, stock: Option<i32>, recipients: Seq<Seq<char>>) -> Seq<
    NotificationView,
> {
    if notifies(stock) {
        recipients.map_values(
            |to: Seq<char>|
                NotificationView {
                    to,
                    subject: message_text(product, stock->0 as nat),
                    body: message_text(product, stock->0 as nat),
                },
        )
    } else {
        Seq::empty()
    }
}

/// `needle` stands somewhere in `hay`.
pub open spec fn contains_text(hay: Seq<char>, needle: Seq<char>) -> bool {
    exists|i: int| 0 <= i <= hay.len() - needle.len() && #[trigger] hay.subrange(i, i + needle.len()) == needle
}

proof fn lemma_message_mentions(product: Seq<char>, count: nat)
    ensures
        contains_text(message_text(product, count), product),
        contains_text(message_text(product, count), decimal(count)),
{
    let a = "[arrow艾睿] "@;
    let b = " 产品有 "@;
    let m = message_text(product, count);
    let i = a.len() as int;
    assert(m.subrange(i, i + product.len()) =~= product);
    let j = i + product.len() + b.len();
    assert(m.subrange(j, j + decimal(count).len()) =~= decimal(count));
}

/// A product check whose fetch failed sends no mail.
pub proof fn lemma_failed_fetch_sends_nothing(
    product: Seq<char>,
    e: FetchError,
    recipients: Seq<Seq<char>>,
)
    ensures
        response_stock(Err(e)) is None,
        plan(product, response_stock(Err(e)), recipients).len() == 0,
{
}

/// No mail for an absent or zero stock count; for a positive one exactly one
/// mail per recipient, in recipient order, whose subject and body both name
/// the product and the exact count.
pub proof fn lemma_notification_pattern(
    product: Seq<char>,
    stock: Option<i32>,
    recipients: Seq<Seq<char>>,
)
    ensures
        !notifies(stock) ==> plan(product, stock, recipients).len() == 0,
        notifies(stock) ==> {
            let ms = plan(product, stock, recipients);
            &&& ms.len() == recipients.len()
            &&& forall|i: int|
                0 <= i < ms.len() ==> {
                    &&& (#[trigger] ms[i]).to == recipients[i]
                    &&& ms[i].subject == ms[i].body
                    &&& contains_text(ms[i].subject, product)
                    &&& contains_text(ms[i].subject, decimal(stock->0 as nat))
                }
        },
{
    if notifies(stock) {
        lemma_message_mentions(product, stock->0 as nat);
    }
}

fn digit(d: u64) -> (c: char)
    requires
        d < 10,
    ensures
        c == digit_char(d as nat),
{
    if d == 0 {
        '0'
    } else if d == 1 {
        '1'
    } else if d == 2 {
        '2'
    } else if d == 3 {
        '3'
    } else if d == 4 {
        '4'
    } else if d == 5 {
        '5'
    } else if d == 6 {
        '6'
    } else if d == 7 {
        '7'
    } else if d == 8 {
        '8'
    } else {
        '9'
    }
}

/// The decimal digits of `n`.
pub fn decimal_chars(n: u64) -> (r: Vec<char>)
    ensures
        r@ == decimal(n as nat),
    decreases n,
{
    if n < 10 {
        let mut v: Vec<char> = Vec::new();
        v.push(digit(n));
        assert(v@ =~= seq![digit_char(n as nat)]);
        v
    } else {
        let mut v = decimal_chars(n / 10);
        v.push(digit(n % 10));
        v
    }
}

/// Subject and body of the mail about `count` new parts of `product`.
pub fn message_for(product: &str, count: u64) -> (r: String)
    ensures
        r@ == message_text(product@, count as nat),
{
    let mut s = "[arrow艾睿] ".to_owned();
    s.append(product);
    s.append(" 产品有 ");
    let d = string_of(&decimal_chars(count));
    s.append(d.as_str());
    s.append(" 个新库存");
    s
}

/// The mails for one product check, `plan` of its arguments.
pub fn plan_notifications(product: &str, stock: Option<i32>, cfg: &EmailConfig) -> (r: Vec<
    Notification,
>)
    ensures
        notification_views(r@) == plan(product@, stock, string_views(cfg.recipients@)),
{
    let mut out: Vec<Notification> = Vec::new();
    match stock {
        Some(count) => {
            if count <= 0 {
                assert(notification_views(out@) =~= Seq::<NotificationView>::empty());
                return out;
            }
            let text = message_for(product, count as u64);
            let ghost want = plan(product@, stock, string_views(cfg.recipients@));
            let mut i: usize = 0;
            while i < cfg.recipients.len()
                invariant
                    i <= cfg.recipients@.len(),
                    text@ == message_text(product@, count as nat),
                    want == plan(product@, stock, string_views(cfg.recipients@)),
                    want.len() == cfg.recipients@.len(),
                    notification_views(out@) == want.take(i as int),
                    out@.len() == i,
                    stock == Some(count),
                    count > 0,
                decreases cfg.recipients@.len() - i,
            {
                let ghost before = notification_views(out@);
                out.push(
                    Notification {
                        to: cfg.recipients[i].clone(),
                        subject: text.clone(),
                        body: text.clone(),
                    },
                );
                assert(notification_views(out@) =~= before.push(out@[i as int]@));
                assert(string_views(cfg.recipients@)[i as int] == cfg.recipients@[i as int]@);
                assert(out@[i as int]@ == want[i as int]);
                assert(want.take(i + 1) =~= want.take(i as int).push(want[i as int]));
                i = i + 1;
            }
            assert(want.take(want.len() as int) =~= want);
            out
        },
        None => {
            assert(notification_views(out@) =~= Seq::<NotificationView>::empty());
            out
        },
    }
}

/// The mails of one product check from the outcome of its fetch: the stock
/// count that the page shows decides, and a failed fetch sends nothing.
pub fn unit_notifications(product: &str, resp: &Result<String, FetchError>, cfg: &EmailConfig) -> (r:
    Vec<Notification>)
    ensures
        notification_views(r@) == plan(
            product@,
            response_stock(fetch_view(resp)),
            string_views(cfg.recipients@),
        ),
{
    let stock = stock_from_response(resp);
    plan_notifications(product, stock, cfg)
}

} // verus!
