use arrow_stock::notify::unit_notifications;
use arrow_stock::config::parse_email_config;
use arrow_stock::scheduler::{Action, Scheduler, ADMISSION_CEILING};

#[test]
fn spawns_in_list_order_and_wraps() {
    let mut s = Scheduler::with_ceiling(3, 10).unwrap();
    let mut seen = vec![];
    for _ in 0..7 {
        match s.next_action() {
            Action::Spawn(i) => seen.push(i),
            other => panic!("unexpected {:?}", other),
        }
    }
    assert_eq!(seen, vec![0, 1, 2, 0, 1, 2, 0]);
}

#[test]
fn waits_at_ceiling() {
    let mut s = Scheduler::with_ceiling(3, 2).unwrap();
    assert_eq!(s.next_action(), Action::Spawn(0));
    assert_eq!(s.next_action(), Action::Spawn(1));
    assert_eq!(s.next_action(), Action::AwaitNewest);
    assert_eq!(s.outstanding(), 2);
    s.completed();
    assert_eq!(s.outstanding(), 1);
    assert_eq!(s.next_action(), Action::Spawn(2));
    assert_eq!(s.next_action(), Action::AwaitNewest);
}

#[test]
fn default_ceiling_never_exceeded() {
    let mut s = Scheduler::new(7);
    assert_eq!(s.ceiling(), ADMISSION_CEILING);
    assert_eq!(ADMISSION_CEILING, 50);
    let mut spawned = 0;
    for step in 0..500 {
        match s.next_action() {
            Action::Spawn(_) => spawned += 1,
            Action::AwaitNewest => {
                assert_eq!(s.outstanding(), 50);
                if step % 3 == 0 {
                    s.completed();
                }
            }
            Action::Idle => panic!("idle with products"),
        }
        assert!(s.outstanding() <= 50);
    }
    assert!(spawned >= 50);
}

#[test]
fn empty_product_list_is_idle() {
    let mut s = Scheduler::new(0);
    assert_eq!(s.next_action(), Action::Idle);
    assert_eq!(s.outstanding(), 0);
}

#[test]
fn zero_ceiling_refused() {
    assert!(Scheduler::with_ceiling(3, 0).is_none());
}

#[test]
fn completed_with_nothing_outstanding() {
    let mut s = Scheduler::new(1);
    s.completed();
    assert_eq!(s.outstanding(), 0);
    assert_eq!(s.next_action(), Action::Spawn(0));
}

#[test]
fn repeated_sweeps_send_same_mails() {
    let products = vec!["LM258DR".to_string(), "LM393".to_string()];
    let pages = vec![Ok("4,970 parts".to_string()), Ok("nothing".to_string())];
    let cfg = parse_email_config("a@x.com\nsecret\nb@y.com\nc@y.com");
    let mut s = Scheduler::with_ceiling(products.len(), 100).unwrap();
    let mut sweeps: Vec<Vec<(String, String)>> = vec![];
    for _ in 0..3 {
        let mut mails = vec![];
        for _ in 0..products.len() {
            let i = match s.next_action() {
                Action::Spawn(i) => i,
                other => panic!("unexpected {:?}", other),
            };
            for m in unit_notifications(&products[i], &pages[i], &cfg) {
                mails.push((m.to, m.subject));
            }
            s.completed();
        }
        sweeps.push(mails);
    }
    assert_eq!(sweeps[0].len(), 2);
    assert_eq!(sweeps[0], sweeps[1]);
    assert_eq!(sweeps[1], sweeps[2]);
}
