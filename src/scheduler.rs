//! Admission control for the polling sweeps. The library decides, the caller
//! acts: `next_action` says whether to start the check of a product (and which) or
//! to wait for the most recently started check, and `completed` records that
//! a check has finished. Checks are started in product-list order, sweep after
//! sweep, and never more than the ceiling are outstanding.

use vstd::prelude::*;
use crate::notify::{plan, NotificationView};
use crate::stock::{response_stock, FetchError};
use vstd::arithmetic::div_mod::{
    lemma_fundamental_div_mod, lemma_fundamental_div_mod_converse, lemma_mod_pos_bound,
};

verus! {

/// The default number of checks that may be outstanding at once.
pub const ADMISSION_CEILING: usize = 50;

/// What the caller is to do next.
#[derive(Clone, Copy, Debug, PartialEq, Eq, Structural)]
pub enum Action {
    /// Start the check of the product at this index of the list.
    Spawn(usize),
    /// Wait for the most recently started check that is still outstanding.
    AwaitNewest,
    /// Nothing to start and nothing to wait for: the product list is empty.
    Idle,
}

/// Admission control over the product list: which check starts next, and how
/// many are outstanding.
pub struct Scheduler {
    ceiling: usize,
    n_products: usize,
    next: usize,
    outstanding: usize,
    issued: Ghost<nat>,
}

/// The state of a scheduler: its ceiling, the length of the product list,
/// how many checks are outstanding, and how many were started in all.
pub struct SchedulerView {
    pub ceiling: nat,
    pub n_products: nat,
    pub outstanding: nat,
    pub issued: nat,
}

/// The product that the check started as number `j` (counting from zero)
/// is about.
pub open spec fn spawn_target(n_products: nat, j: nat) -> nat {
    j % n_products
}

impl View for Scheduler {
    type V = SchedulerView;

    closed spec fn view(&self) -> SchedulerView {
        SchedulerView {
            ceiling: self.ceiling as nat,
            n_products: self.n_products as nat,
            outstanding: self.outstanding as nat,
            issued: self.issued@,
        }
    }
}

impl Scheduler {
    /// The ceiling is positive and not exceeded, and the next product is the
    /// one that the count of started checks points at.
    pub closed spec fn wf(&self) -> bool {
        &&& self.ceiling >= 1
        &&& self.outstanding <= self.ceiling
        &&& self.n_products == 0 ==> self.next == 0 && self.issued@ == 0
        &&& self.n_products > 0 ==> self.next as nat == spawn_target(
            self.n_products as nat,
            self.issued@,
        )
    }

    /// A scheduler for `n_products` products with the default ceiling.
    pub fn new(n_products: usize) -> (s: Scheduler)
        ensures
            s.wf(),
            s@ == (SchedulerView {
                ceiling: ADMISSION_CEILING as nat,
                n_products: n_products as nat,
                outstanding: 0,
                issued: 0,
            }),
    {
        Scheduler {
            ceiling: ADMISSION_CEILING,
            n_products,
            next: 0,
            outstanding: 0,
            issued: Ghost(0),
        }
    }

    /// A scheduler with the given ceiling; none for a ceiling of zero, under
    /// which no check could ever start.
    pub fn with_ceiling(n_products: usize, ceiling: usize) -> (r: Option<Scheduler>)
        ensures
            r is Some <==> ceiling > 0,
            r matches Some(s) ==> s.wf() && s@ == (SchedulerView {
                ceiling: ceiling as nat,
                n_products: n_products as nat,
                outstanding: 0,
                issued: 0,
            }),
    {
        if ceiling == 0 {
            None
        } else {
            Some(Scheduler { ceiling, n_products, next: 0, outstanding: 0, issued: Ghost(0) })
        }
    }

    pub fn outstanding(&self) -> (r: usize)
        ensures
            r == self@.outstanding,
    {
        self.outstanding
    }

    pub fn ceiling(&self) -> (r: usize)
        ensures
            r == self@.ceiling,
    {
        self.ceiling
    }

    /// Decides the next step. Below the ceiling the check of the next product
    /// in sweep order starts and counts as outstanding; at the ceiling the
    /// caller waits for the newest outstanding check.
    pub fn next_action(&mut self) -> (r: Action)
        requires
            old(self).wf(),
        ensures
            final(self).wf(),
            old(self)@.outstanding < old(self)@.ceiling && old(self)@.n_products > 0 ==> r
                == Action::Spawn(spawn_target(old(self)@.n_products, old(self)@.issued) as usize)
                && final(self)@ == (SchedulerView {
                outstanding: old(self)@.outstanding + 1,
                issued: old(self)@.issued + 1,
                ..old(self)@
            }),
            !(old(self)@.outstanding < old(self)@.ceiling && old(self)@.n_products > 0) ==> (if old(
                self,
            )@.outstanding > 0 {
                r == Action::AwaitNewest
            } else {
                r == Action::Idle
            }) && final(self)@ == old(self)@,
    {
        if self.outstanding < self.ceiling && self.n_products > 0 {
            let target = self.next;
            let ghost n = self.n_products as nat;
            let ghost j = self.issued@;
            self.next = if self.next + 1 == self.n_products {
                0
            } else {
                self.next + 1
            };
            self.outstanding = self.outstanding + 1;
            self.issued = Ghost(j + 1);
            proof {
                lemma_next_target(n, j);
            }
            Action::Spawn(target)
        } else if self.outstanding > 0 {
            Action::AwaitNewest
        } else {
            Action::Idle
        }
    }

    /// Records that the newest outstanding check has finished.
    pub fn completed(&mut self)
        requires
            old(self).wf(),
        ensures
            final(self).wf(),
            final(self)@ == (if old(self)@.outstanding > 0 {
                SchedulerView { outstanding: (old(self)@.outstanding - 1) as nat, ..old(self)@ }
            } else {
                old(self)@
            }),
    {
        if self.outstanding > 0 {
            self.outstanding = self.outstanding - 1;
        }
    }
}

/// The mails of the check started as number `j`, where `pages` holds what
/// the fetch of each product returns.
pub open spec fn spawn_plan(
    products: Seq<Seq<char>>,
    pages: Seq<Result<Seq<char>, FetchError>>,
    recipients: Seq<Seq<char>>,
    j: nat,
) -> Seq<NotificationView> {
    let t = spawn_target(products.len(), j) as int;
    plan(products[t], response_stock(pages[t]), recipients)
}

/// However the checks interleave, no more than the ceiling are outstanding.
pub proof fn lemma_admission_ceiling(s: &Scheduler)
    requires
        s.wf(),
    ensures
        s@.outstanding <= s@.ceiling,
        s@.ceiling >= 1,
{
}

/// A scheduler made by `new` keeps the default ceiling through every call,
/// so at no point are more than `ADMISSION_CEILING` (fifty) checks
/// outstanding.
pub proof fn lemma_default_ceiling(s: &Scheduler)
    requires
        s.wf(),
        s@.ceiling == ADMISSION_CEILING,
    ensures
        s@.outstanding <= 50,
{
}

/// Sweeps repeat: in every sweep the check of position `i` is about product
/// `i`, and while what the fetches return stays the same, it sends the same
/// mails in sweep `k1` as in sweep `k2`, with no repeat left out.
pub proof fn lemma_sweeps_repeat(
    products: Seq<Seq<char>>,
    pages: Seq<Result<Seq<char>, FetchError>>,
    recipients: Seq<Seq<char>>,
    k1: nat,
    k2: nat,
    i: nat,
)
    requires
        i < products.len(),
        pages.len() == products.len(),
    ensures
        spawn_target(products.len(), k1 * products.len() + i) == i,
        spawn_plan(products, pages, recipients, k1 * products.len() + i) == spawn_plan(
            products,
            pages,
            recipients,
            k2 * products.len() + i,
        ),
        spawn_plan(products, pages, recipients, k1 * products.len() + i) == plan(
            products[i as int],
            response_stock(pages[i as int]),
            recipients,
        ),
{
    let n = products.len();
    lemma_sweep_target(n, k1, i);
    lemma_sweep_target(n, k2, i);
}

proof fn lemma_sweep_target(n: nat, k: nat, i: nat)
    requires
        i < n,
    ensures
        spawn_target(n, k * n + i) == i,
{
    assert(k * n >= 0) by (nonlinear_arith);
    lemma_fundamental_div_mod_converse((k * n + i) as int, n as int, k as int, i as int);
}

proof fn lemma_next_target(n: nat, j: nat)
    requires
        n > 0,
    ensures
        spawn_target(n, j + 1) == if spawn_target(n, j) + 1 == n {
            0
        } else {
            spawn_target(n, j) + 1
        },
{
    lemma_fundamental_div_mod(j as int, n as int);
    let q: int = (j / n) as int;
    let r: int = (j % n) as int;
    lemma_mod_pos_bound(j as int, n as int);
    assert(j + 1 == q * n + r + 1) by (nonlinear_arith)
        requires
            j == n * q + r,
    ;
    assert((q + 1) * n == q * n + n) by (nonlinear_arith);
    if r + 1 == n {
        lemma_fundamental_div_mod_converse((j + 1) as int, n as int, q + 1, 0);
    } else {
        lemma_fundamental_div_mod_converse((j + 1) as int, n as int, q, r + 1);
    }
}

} // verus!
